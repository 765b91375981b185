//! The input of a parser that builds values with source positions.
use vstd::prelude::*;

verus! {

/// The bytes of one source file and the index of that file.
pub struct Span<'a> {
    pub data: &'a [u8],
    pub file: usize,
}

} // verus!
