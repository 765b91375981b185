//! A verified core of a Sass compiler: the parsers for whitespace,
//! comments, selectors and module directives, the checks on what a body
//! may hold, and the transformation of parsed items into css text.
pub mod parser;
pub mod error;
pub mod compile;
pub mod css;
pub mod eval;
pub mod output;
pub mod sass;
pub mod value;
