//! Parsers for plain css.
pub mod selectors;
