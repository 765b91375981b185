//! Evaluated values and how they are written as css.
use crate::parser::bytes_eq;
use crate::parser::value::kw;
use crate::sass::{ListSep, Number, NumberV, Quotes};
use vstd::prelude::*;
use vstd::slice::slice_to_vec;
use vstd::string::StringSliceAdditionalSpecFns;

verus! {

/// One, in the fixed point form of numbers.
pub open spec fn one() -> int {
    10000000000
}

/// A color: red, green and blue channels and an alpha between zero and
/// one (in the fixed point form of numbers).
#[derive(Clone, Copy, PartialEq, Eq, Structural, Debug)]
pub struct Color {
    pub r: u8,
    pub g: u8,
    pub b: u8,
    pub alpha: i128,
}

/// An evaluated value.
#[derive(Debug, PartialEq, Eq)]
pub enum CssValue {
    Null,
    Bool(bool),
    Numeric(Number),
    Color(Color),
    Str(Vec<u8>, Quotes),
    List(Vec<CssValue>, ListSep),
}

pub enum CssValueV {
    Null,
    Bool(bool),
    Numeric(NumberV),
    Color(Color),
    Str(Seq<u8>, Quotes),
    List(Seq<CssValueV>, ListSep),
}

impl CssValue {
    pub open spec fn view(&self) -> CssValueV
        decreases self,
    {
        match self {
            CssValue::Null => CssValueV::Null,
            CssValue::Bool(b) => CssValueV::Bool(*b),
            CssValue::Numeric(n) => CssValueV::Numeric(n@),
            CssValue::Color(c) => CssValueV::Color(*c),
            CssValue::Str(s, q) => CssValueV::Str(s@, *q),
            CssValue::List(vs, sep) => CssValueV::List(
                Seq::new(
                    vs.len() as nat,
                    |i: int|
                        if 0 <= i < vs.len() {
                            vs@[i].view()
                        } else {
                            CssValueV::Null
                        },
                ),
                *sep,
            ),
        }
    }
}

/// The views of a sequence of values.
pub open spec fn css_values_view(vs: Seq<CssValue>) -> Seq<CssValueV> {
    Seq::new(vs.len(), |i: int| vs[i].view())
}

pub proof fn lemma_css_list_view(v: &CssValue)
    ensures
        v matches CssValue::List(vs, sep) ==> v.view() == CssValueV::List(
            css_values_view(vs@),
            *sep,
        ),
{
    if let CssValue::List(vs, sep) = v {
        assert(v.view()->List_0 =~= css_values_view(vs@));
    }
}

// ---------------------------------------------------------------------
// Writing numbers
// ---------------------------------------------------------------------

/// The decimal digits of `n`.
pub open spec fn dec_digits(n: nat) -> Seq<u8>
    decreases n,
{
    if n < 10 {
        seq![(48 + n) as u8]
    } else {
        dec_digits(n / 10).push((48 + n % 10) as u8)
    }
}

/// The ten decimals of a fraction `f` below one, without the zeros at
/// the end.
pub open spec fn frac_digits(f: nat, k: nat) -> Seq<u8>
    decreases k,
{
    if k == 0 || f == 0 {
        seq![]
    } else {
        let p = crate::parser::value::pow10((k - 1) as nat);
        seq![(48 + f / (p as nat)) as u8] + frac_digits(f % (p as nat), (k - 1) as nat)
    }
}

/// A non-negative fixed point value as text: the integer part, and a
/// point and the decimals if there are any.
pub open spec fn format_abs(v: nat) -> Seq<u8> {
    let i = v / (one() as nat);
    let f = v % (one() as nat);
    if f == 0 {
        dec_digits(i)
    } else {
        dec_digits(i) + seq![46u8] + frac_digits(f, 10)
    }
}

/// A fixed point value as text.
pub open spec fn format_fixed(v: int) -> Seq<u8> {
    if v < 0 {
        seq![45u8] + format_abs((-v) as nat)
    } else {
        format_abs(v as nat)
    }
}

/// A number as text: its value and its unit.
pub open spec fn format_number(n: NumberV) -> Seq<u8> {
    format_fixed(n.value as int) + n.unit
}

pub fn dec_digits_exec(n: u128) -> (r: Vec<u8>)
    ensures
        r@ == dec_digits(n as nat),
    decreases n,
{
    if n < 10 {
        let mut r: Vec<u8> = Vec::new();
        r.push((48 + n) as u8);
        proof {
            assert(r@ =~= dec_digits(n as nat));
        }
        r
    } else {
        let mut r = dec_digits_exec(n / 10);
        r.push((48 + n % 10) as u8);
        r
    }
}

fn frac_digits_exec(f: u128, k: u32) -> (r: Vec<u8>)
    requires
        k <= 10,
        f < crate::parser::value::pow10(k as nat),
    ensures
        r@ == frac_digits(f as nat, k as nat),
    decreases k,
{
    if k == 0 || f == 0 {
        let r: Vec<u8> = Vec::new();
        proof {
            assert(r@ =~= frac_digits(f as nat, k as nat));
        }
        r
    } else {
        let p = pow10_u128(k - 1);
        proof {
            assert(crate::parser::value::pow10(k as nat) == 10 * crate::parser::value::pow10(
                (k - 1) as nat,
            ));
            assert(f / p < 10) by (nonlinear_arith)
                requires
                    f < 10 * p,
                    p >= 1,
            ;
            assert(f % p < p) by (nonlinear_arith)
                requires
                    p >= 1,
            ;
        }
        let mut r: Vec<u8> = Vec::new();
        r.push((48 + f / p) as u8);
        let mut rest = frac_digits_exec(f % p, k - 1);
        r.append(&mut rest);
        proof {
            assert(r@ =~= frac_digits(f as nat, k as nat));
        }
        r
    }
}

fn pow10_u128(k: u32) -> (r: u128)
    requires
        k <= 10,
    ensures
        r == crate::parser::value::pow10(k as nat),
        r >= 1,
    decreases k,
{
    if k == 0 {
        1
    } else {
        let p = pow10_u128(k - 1);
        proof {
            crate::parser::value::lemma_pow10_mono((k - 1) as nat, 9);
            reveal_with_fuel(crate::parser::value::pow10, 10);
        }
        p * 10
    }
}

/// Writes a fixed point value.
pub fn format_fixed_exec(v: i128) -> (r: Vec<u8>)
    ensures
        r@ == format_fixed(v as int),
{
    let a: u128 = if v < 0 {
        if v == i128::MIN {
            (i128::MAX as u128) + 1
        } else {
            (-v) as u128
        }
    } else {
        v as u128
    };
    let i = a / 10000000000u128;
    let f = a % 10000000000u128;
    let mut r: Vec<u8> = Vec::new();
    if v < 0 {
        r.push(45u8);
    }
    let mut d = dec_digits_exec(i);
    r.append(&mut d);
    if f != 0 {
        r.push(46u8);
        proof {
            assert(crate::parser::value::pow10(10) == 10000000000) by {
                reveal_with_fuel(crate::parser::value::pow10, 11);
            }
        }
        let mut fr = frac_digits_exec(f, 10);
        r.append(&mut fr);
    }
    proof {
        assert(r@ =~= format_fixed(v as int));
    }
    r
}


// ---------------------------------------------------------------------
// Writing colors and strings
// ---------------------------------------------------------------------

/// The basic css color names and their channels.
pub open spec fn color_by_name(n: Seq<u8>) -> Option<(u8, u8, u8)> {
    if n == kw("black") {
        Some((0u8, 0u8, 0u8))
    } else if n == kw("silver") {
        Some((192u8, 192u8, 192u8))
    } else if n == kw("gray") {
        Some((128u8, 128u8, 128u8))
    } else if n == kw("white") {
        Some((255u8, 255u8, 255u8))
    } else if n == kw("maroon") {
        Some((128u8, 0u8, 0u8))
    } else if n == kw("red") {
        Some((255u8, 0u8, 0u8))
    } else if n == kw("purple") {
        Some((128u8, 0u8, 128u8))
    } else if n == kw("fuchsia") {
        Some((255u8, 0u8, 255u8))
    } else if n == kw("green") {
        Some((0u8, 128u8, 0u8))
    } else if n == kw("lime") {
        Some((0u8, 255u8, 0u8))
    } else if n == kw("olive") {
        Some((128u8, 128u8, 0u8))
    } else if n == kw("yellow") {
        Some((255u8, 255u8, 0u8))
    } else if n == kw("navy") {
        Some((0u8, 0u8, 128u8))
    } else if n == kw("blue") {
        Some((0u8, 0u8, 255u8))
    } else if n == kw("teal") {
        Some((0u8, 128u8, 128u8))
    } else if n == kw("aqua") {
        Some((0u8, 255u8, 255u8))
    } else {
        None
    }
}

/// The name of a color with these channels, if it has one.
pub open spec fn name_of_color(r: u8, g: u8, b: u8) -> Option<Seq<u8>> {
    if (r, g, b) == (0u8, 0u8, 0u8) {
        Some(kw("black"))
    } else if (r, g, b) == (192u8, 192u8, 192u8) {
        Some(kw("silver"))
    } else if (r, g, b) == (128u8, 128u8, 128u8) {
        Some(kw("gray"))
    } else if (r, g, b) == (255u8, 255u8, 255u8) {
        Some(kw("white"))
    } else if (r, g, b) == (128u8, 0u8, 0u8) {
        Some(kw("maroon"))
    } else if (r, g, b) == (255u8, 0u8, 0u8) {
        Some(kw("red"))
    } else if (r, g, b) == (128u8, 0u8, 128u8) {
        Some(kw("purple"))
    } else if (r, g, b) == (255u8, 0u8, 255u8) {
        Some(kw("fuchsia"))
    } else if (r, g, b) == (0u8, 128u8, 0u8) {
        Some(kw("green"))
    } else if (r, g, b) == (0u8, 255u8, 0u8) {
        Some(kw("lime"))
    } else if (r, g, b) == (128u8, 128u8, 0u8) {
        Some(kw("olive"))
    } else if (r, g, b) == (255u8, 255u8, 0u8) {
        Some(kw("yellow"))
    } else if (r, g, b) == (0u8, 0u8, 128u8) {
        Some(kw("navy"))
    } else if (r, g, b) == (0u8, 0u8, 255u8) {
        Some(kw("blue"))
    } else if (r, g, b) == (0u8, 128u8, 128u8) {
        Some(kw("teal"))
    } else if (r, g, b) == (0u8, 255u8, 255u8) {
        Some(kw("aqua"))
    } else {
        None
    }
}

/// The channels of the named color `n`, if it is one.
pub fn color_by_name_exec(n: &[u8]) -> (r: Option<(u8, u8, u8)>)
    ensures
        r == color_by_name(n@),
{
    if bytes_eq(n, "black".as_bytes()) {
        Some((0u8, 0u8, 0u8))
    } else if bytes_eq(n, "silver".as_bytes()) {
        Some((192u8, 192u8, 192u8))
    } else if bytes_eq(n, "gray".as_bytes()) {
        Some((128u8, 128u8, 128u8))
    } else if bytes_eq(n, "white".as_bytes()) {
        Some((255u8, 255u8, 255u8))
    } else if bytes_eq(n, "maroon".as_bytes()) {
        Some((128u8, 0u8, 0u8))
    } else if bytes_eq(n, "red".as_bytes()) {
        Some((255u8, 0u8, 0u8))
    } else if bytes_eq(n, "purple".as_bytes()) {
        Some((128u8, 0u8, 128u8))
    } else if bytes_eq(n, "fuchsia".as_bytes()) {
        Some((255u8, 0u8, 255u8))
    } else if bytes_eq(n, "green".as_bytes()) {
        Some((0u8, 128u8, 0u8))
    } else if bytes_eq(n, "lime".as_bytes()) {
        Some((0u8, 255u8, 0u8))
    } else if bytes_eq(n, "olive".as_bytes()) {
        Some((128u8, 128u8, 0u8))
    } else if bytes_eq(n, "yellow".as_bytes()) {
        Some((255u8, 255u8, 0u8))
    } else if bytes_eq(n, "navy".as_bytes()) {
        Some((0u8, 0u8, 128u8))
    } else if bytes_eq(n, "blue".as_bytes()) {
        Some((0u8, 0u8, 255u8))
    } else if bytes_eq(n, "teal".as_bytes()) {
        Some((0u8, 128u8, 128u8))
    } else if bytes_eq(n, "aqua".as_bytes()) {
        Some((0u8, 255u8, 255u8))
    } else {
        None
    }
}

fn name_of_color_exec(r: u8, g: u8, b: u8) -> (res: Option<Vec<u8>>)
    ensures
        res matches Some(v) ==> name_of_color(r, g, b) == Some(v@),
        res is None ==> name_of_color(r, g, b) is None,
{
    let n: Option<&str> = if r == 0 && g == 0 && b == 0 {
        Some("black")
    } else if r == 192 && g == 192 && b == 192 {
        Some("silver")
    } else if r == 128 && g == 128 && b == 128 {
        Some("gray")
    } else if r == 255 && g == 255 && b == 255 {
        Some("white")
    } else if r == 128 && g == 0 && b == 0 {
        Some("maroon")
    } else if r == 255 && g == 0 && b == 0 {
        Some("red")
    } else if r == 128 && g == 0 && b == 128 {
        Some("purple")
    } else if r == 255 && g == 0 && b == 255 {
        Some("fuchsia")
    } else if r == 0 && g == 128 && b == 0 {
        Some("green")
    } else if r == 0 && g == 255 && b == 0 {
        Some("lime")
    } else if r == 128 && g == 128 && b == 0 {
        Some("olive")
    } else if r == 255 && g == 255 && b == 0 {
        Some("yellow")
    } else if r == 0 && g == 0 && b == 128 {
        Some("navy")
    } else if r == 0 && g == 0 && b == 255 {
        Some("blue")
    } else if r == 0 && g == 128 && b == 128 {
        Some("teal")
    } else if r == 0 && g == 255 && b == 255 {
        Some("aqua")
    } else {
        None
    };
    match n {
        Some(s) => Some(slice_to_vec(s.as_bytes())),
        None => None,
    }
}

/// A hexadecimal digit, in lower case.
pub open spec fn hex_digit(d: u8) -> u8 {
    if d < 10 {
        (48 + d) as u8
    } else {
        (87 + d) as u8
    }
}

/// A channel as two hexadecimal digits.
pub open spec fn hex2(c: u8) -> Seq<u8> {
    seq![hex_digit(c / 16), hex_digit(c % 16)]
}

/// A color as text: its name or `#rrggbb` when it is opaque, else
/// `rgba(r, g, b, alpha)`.
pub open spec fn format_color(c: Color) -> Seq<u8> {
    if c.alpha as int >= one() {
        match name_of_color(c.r, c.g, c.b) {
            Some(n) => n,
            None => seq![35u8] + hex2(c.r) + hex2(c.g) + hex2(c.b),
        }
    } else {
        kw("rgba(") + dec_digits(c.r as nat) + kw(", ") + dec_digits(c.g as nat) + kw(", ")
            + dec_digits(c.b as nat) + kw(", ") + format_fixed(c.alpha as int) + kw(")")
    }
}

/// The text between double quotes: each `"` after a backslash.
pub open spec fn escape_dq(b: Seq<u8>) -> Seq<u8>
    decreases b.len(),
{
    if b.len() == 0 {
        seq![]
    } else {
        escape_dq(b.drop_last()) + if b.last() == 34u8 {
            seq![92u8, 34u8]
        } else {
            seq![b.last()]
        }
    }
}

/// A quoted string as text: in single quotes when it holds a double
/// quote and no single quote, else in double quotes.
pub open spec fn quote_bytes(b: Seq<u8>) -> Seq<u8> {
    if b.contains(34u8) && !b.contains(39u8) {
        seq![39u8] + b + seq![39u8]
    } else {
        seq![34u8] + escape_dq(b) + seq![34u8]
    }
}

/// The separator between written list items.
pub open spec fn sep_bytes(sep: ListSep) -> Seq<u8> {
    match sep {
        ListSep::Comma => kw(", "),
        ListSep::Space => kw(" "),
    }
}

/// A value as css text. Null is written as nothing, and null items of a
/// list are left out.
pub open spec fn format_value(v: CssValueV) -> Seq<u8>
    decreases v,
{
    match v {
        CssValueV::Null => seq![],
        CssValueV::Bool(b) => if b {
            kw("true")
        } else {
            kw("false")
        },
        CssValueV::Numeric(n) => format_number(n),
        CssValueV::Color(c) => format_color(c),
        CssValueV::Str(b, q) => match q {
            Quotes::NoQuotes => b,
            _ => quote_bytes(b),
        },
        CssValueV::List(vs, sep) => join_values(vs, sep, vs.len() as int),
    }
}

/// The first `n` items of a list, written and joined by the separator.
pub open spec fn join_values(vs: Seq<CssValueV>, sep: ListSep, n: int) -> Seq<u8>
    decreases vs, n,
{
    if n <= 0 || n > vs.len() {
        seq![]
    } else {
        let acc = join_values(vs, sep, n - 1);
        let t = format_value(vs[n - 1]);
        if t.len() == 0 {
            acc
        } else if acc.len() == 0 {
            t
        } else {
            acc + sep_bytes(sep) + t
        }
    }
}


/// A value as text with no quotes round its strings, nor round the
/// strings among the items of its lists.
pub open spec fn unquoted_text(v: CssValueV) -> Seq<u8>
    decreases v,
{
    match v {
        CssValueV::Str(b, _) => b,
        CssValueV::List(vs, sep) => join_unquoted(vs, sep, vs.len() as int),
        _ => format_value(v),
    }
}

/// The first `n` items of a list as unquoted text, joined by the separator.
pub open spec fn join_unquoted(vs: Seq<CssValueV>, sep: ListSep, n: int) -> Seq<u8>
    decreases vs, n,
{
    if n <= 0 || n > vs.len() {
        seq![]
    } else {
        let acc = join_unquoted(vs, sep, n - 1);
        let t = unquoted_text(vs[n - 1]);
        if t.len() == 0 {
            acc
        } else if acc.len() == 0 {
            t
        } else {
            acc + sep_bytes(sep) + t
        }
    }
}


pub fn push_str(out: &mut Vec<u8>, s: &str)
    ensures
        final(out)@ == old(out)@ + s.spec_bytes(),
{
    let b = s.as_bytes();
    let mut i: usize = 0;
    let ghost o0 = out@;
    while i < b.len()
        invariant
            i <= b.len(),
            b@ == s.spec_bytes(),
            out@ == o0 + b@.take(i as int),
        decreases b.len() - i,
    {
        out.push(b[i]);
        i += 1;
        proof {
            assert(b@.take(i as int) =~= b@.take(i - 1).push(b@[i - 1]));
        }
    }
    proof {
        assert(b@.take(i as int) =~= b@);
    }
}

/// Appends `b` to `out`.
pub fn push_bytes(out: &mut Vec<u8>, b: &[u8])
    ensures
        final(out)@ == old(out)@ + b@,
{
    let mut i: usize = 0;
    let ghost o0 = out@;
    while i < b.len()
        invariant
            i <= b.len(),
            out@ == o0 + b@.take(i as int),
        decreases b.len() - i,
    {
        out.push(b[i]);
        i += 1;
        proof {
            assert(b@.take(i as int) =~= b@.take(i - 1).push(b@[i - 1]));
        }
    }
    proof {
        assert(b@.take(i as int) =~= b@);
    }
}

fn hex_digit_exec(d: u8) -> (r: u8)
    requires
        d < 16,
    ensures
        r == hex_digit(d),
{
    if d < 10 {
        48 + d
    } else {
        87 + d
    }
}

/// Writes a color.
pub fn format_color_exec(c: Color) -> (r: Vec<u8>)
    ensures
        r@ == format_color(c),
{
    if c.alpha >= 10000000000i128 {
        match name_of_color_exec(c.r, c.g, c.b) {
            Some(n) => n,
            None => {
                let mut r: Vec<u8> = Vec::new();
                r.push(35u8);
                r.push(hex_digit_exec(c.r / 16));
                r.push(hex_digit_exec(c.r % 16));
                r.push(hex_digit_exec(c.g / 16));
                r.push(hex_digit_exec(c.g % 16));
                r.push(hex_digit_exec(c.b / 16));
                r.push(hex_digit_exec(c.b % 16));
                proof {
                    assert(r@ =~= format_color(c));
                }
                r
            },
        }
    } else {
        let mut r: Vec<u8> = Vec::new();
        push_str(&mut r, "rgba(");
        let mut d = dec_digits_exec(c.r as u128);
        r.append(&mut d);
        push_str(&mut r, ", ");
        let mut d = dec_digits_exec(c.g as u128);
        r.append(&mut d);
        push_str(&mut r, ", ");
        let mut d = dec_digits_exec(c.b as u128);
        r.append(&mut d);
        push_str(&mut r, ", ");
        let mut d = format_fixed_exec(c.alpha);
        r.append(&mut d);
        push_str(&mut r, ")");
        proof {
            assert(r@ =~= format_color(c));
        }
        r
    }
}

fn contains_byte(b: &[u8], x: u8) -> (r: bool)
    ensures
        r == b@.contains(x),
{
    let mut i: usize = 0;
    while i < b.len()
        invariant
            i <= b.len(),
            forall|k: int| 0 <= k < i ==> b@[k] != x,
        decreases b.len() - i,
    {
        if b[i] == x {
            return true;
        }
        i += 1;
    }
    false
}

/// Writes a quoted string.
pub fn quote_bytes_exec(b: &[u8]) -> (r: Vec<u8>)
    ensures
        r@ == quote_bytes(b@),
{
    let mut r: Vec<u8> = Vec::new();
    if contains_byte(b, 34u8) && !contains_byte(b, 39u8) {
        r.push(39u8);
        push_bytes(&mut r, b);
        r.push(39u8);
        proof {
            assert(r@ =~= quote_bytes(b@));
        }
        return r;
    }
    r.push(34u8);
    let mut i: usize = 0;
    while i < b.len()
        invariant
            i <= b.len(),
            r@ == seq![34u8] + escape_dq(b@.take(i as int)),
        decreases b.len() - i,
    {
        if b[i] == 34u8 {
            r.push(92u8);
            r.push(34u8);
        } else {
            r.push(b[i]);
        }
        proof {
            let t = b@.take(i + 1);
            assert(t.drop_last() =~= b@.take(i as int));
            assert(t.last() == b@[i as int]);
        }
        i += 1;
        proof {
            assert(r@ =~= seq![34u8] + escape_dq(b@.take(i as int)));
        }
    }
    r.push(34u8);
    proof {
        assert(b@.take(i as int) =~= b@);
        assert(r@ =~= quote_bytes(b@));
    }
    r
}

/// Writes a value as css text.
pub fn format_value_exec(v: &CssValue) -> (r: Vec<u8>)
    ensures
        r@ == format_value(v.view()),
    decreases v,
{
    match v {
        CssValue::Null => Vec::new(),
        CssValue::Bool(b) => {
            let mut r: Vec<u8> = Vec::new();
            if *b {
                push_str(&mut r, "true");
            } else {
                push_str(&mut r, "false");
            }
            r
        },
        CssValue::Numeric(n) => {
            let mut r = format_fixed_exec(n.value);
            push_bytes(&mut r, n.unit.as_slice());
            r
        },
        CssValue::Color(c) => format_color_exec(*c),
        CssValue::Str(b, q) => match q {
            Quotes::NoQuotes => slice_to_vec(b.as_slice()),
            _ => quote_bytes_exec(b.as_slice()),
        },
        CssValue::List(vs, sep) => {
            proof {
                lemma_css_list_view(v);
            }
            format_list_exec(vs, *sep)
        },
    }
}

/// Writes the items of a list, joined by the separator.
fn format_list_exec(vs: &Vec<CssValue>, sep: ListSep) -> (r: Vec<u8>)
    ensures
        r@ == join_values(css_values_view(vs@), sep, vs.len() as int),
    decreases vs,
{
    let mut r: Vec<u8> = Vec::new();
    let mut i: usize = 0;
    while i < vs.len()
        invariant
            i <= vs.len(),
            r@ == join_values(css_values_view(vs@), sep, i as int),
        decreases vs.len() - i,
    {
        proof {
            vstd::std_specs::vec::axiom_vec_index_decreases(*vs, i as int);
        }
        let t = format_value_exec(&vs[i]);
        if t.len() > 0 {
            if r.len() > 0 {
                match sep {
                    ListSep::Comma => push_str(&mut r, ", "),
                    ListSep::Space => push_str(&mut r, " "),
                }
            }
            push_bytes(&mut r, t.as_slice());
        }
        i += 1;
    }
    r
}

/// Writes a value as text with no quotes round its strings.
pub fn unquoted_text_exec(v: &CssValue) -> (r: Vec<u8>)
    ensures
        r@ == unquoted_text(v.view()),
    decreases v,
{
    match v {
        CssValue::Str(b, _) => slice_to_vec(b.as_slice()),
        CssValue::List(vs, sep) => {
            proof {
                lemma_css_list_view(v);
            }
            unquoted_list_exec(vs, *sep)
        },
        _ => format_value_exec(v),
    }
}

/// Writes the items of a list as unquoted text, joined by the separator.
fn unquoted_list_exec(vs: &Vec<CssValue>, sep: ListSep) -> (r: Vec<u8>)
    ensures
        r@ == join_unquoted(css_values_view(vs@), sep, vs.len() as int),
    decreases vs,
{
    let mut r: Vec<u8> = Vec::new();
    let mut i: usize = 0;
    while i < vs.len()
        invariant
            i <= vs.len(),
            r@ == join_unquoted(css_values_view(vs@), sep, i as int),
        decreases vs.len() - i,
    {
        proof {
            vstd::std_specs::vec::axiom_vec_index_decreases(*vs, i as int);
        }
        let t = unquoted_text_exec(&vs[i]);
        if t.len() > 0 {
            if r.len() > 0 {
                match sep {
                    ListSep::Comma => push_str(&mut r, ", "),
                    ListSep::Space => push_str(&mut r, " "),
                }
            }
            push_bytes(&mut r, t.as_slice());
        }
        i += 1;
    }
    r
}

} // verus!
