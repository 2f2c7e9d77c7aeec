//! Conditional inclusion of source declarations.
//!
//! A condition is a boolean expression over named flags (`nightly`,
//! `feature = "serde"`, `any(..)`, `all(..)`, `not(..)`).  Gating a
//! declaration prepends a build-inclusion annotation carrying the
//! condition and, in a documentation build, a documentation annotation
//! with the same condition; the declaration text stays as it was.

pub mod condition;
pub mod parser;
pub mod gate;
pub mod laws;
