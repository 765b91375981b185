//! Parsers over a byte input. Each parser takes the whole input and a
//! position in it, and gives back `None` or the position just after what
//! it recognized together with the value it built.
pub mod css;
pub mod imports;
pub mod items;
pub mod span;
pub mod strings;
pub mod util;
pub mod value;

use vstd::prelude::*;

verus! {

/// What a parser gives back: the end position and the value, or nothing.
pub type PResult<T> = Option<(usize, T)>;

/// The byte at `i` is `b`.
pub open spec fn at(s: Seq<u8>, i: int, b: u8) -> bool {
    0 <= i < s.len() && s[i] == b
}

/// Exec check of `at`.
pub fn byte_at(input: &[u8], pos: usize, b: u8) -> (r: bool)
    ensures
        r == at(input@, pos as int, b),
{
    pos < input.len() && input[pos] == b
}

/// Whether two byte strings are equal.
pub fn bytes_eq(a: &[u8], b: &[u8]) -> (r: bool)
    ensures
        r == (a@ == b@),
{
    if a.len() != b.len() {
        return false;
    }
    let mut i: usize = 0;
    while i < a.len()
        invariant
            i <= a.len() == b.len(),
            a@.take(i as int) == b@.take(i as int),
        decreases a.len() - i,
    {
        if a[i] != b[i] {
            assert(a@[i as int] != b@[i as int]);
            return false;
        }
        i += 1;
        assert(a@.take(i as int) == a@.take(i - 1).push(a@[i - 1]));
        assert(b@.take(i as int) == b@.take(i - 1).push(b@[i - 1]));
    }
    assert(a@ == a@.take(i as int));
    assert(b@ == b@.take(i as int));
    true
}

/// Whether the bytes `t` stand at `i` in `s`.
pub open spec fn has_tag(s: Seq<u8>, i: int, t: Seq<u8>) -> bool {
    0 <= i && i + t.len() <= s.len() && s.subrange(i, i + t.len()) == t
}

/// Exec check of `has_tag`.
pub fn tag_at(input: &[u8], pos: usize, t: &[u8]) -> (r: bool)
    ensures
        r == has_tag(input@, pos as int, t@),
{
    if pos > input.len() || t.len() > input.len() - pos {
        return false;
    }
    let mut k: usize = 0;
    while k < t.len()
        invariant
            k <= t.len(),
            pos + t.len() <= input.len(),
            forall|q: int| 0 <= q < k ==> input@[pos + q] == t@[q],
        decreases t.len() - k,
    {
        if input[pos + k] != t[k] {
            assert(input@.subrange(pos as int, pos + t.len())[k as int] != t@[k as int]);
            return false;
        }
        k += 1;
    }
    assert(input@.subrange(pos as int, pos + t.len()) =~= t@);
    true
}

/// Only the end position of a parse result.
pub open spec fn end_of<T>(r: PResult<T>) -> Option<int> {
    match r {
        Some((j, _)) => Some(j as int),
        None => None,
    }
}

} // verus!
