//! Writing css.
pub mod cssbuf;
pub mod transform;
