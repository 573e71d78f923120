//! A small template engine: `{{ }}` blocks holding an identifier, a number
//! or a binary arithmetic expression, substituted into literal text.
//!
//! `parser` turns a template into a tree of `nodes`, `context` holds the
//! data it is rendered against, and `render` walks the tree. The library
//! does everything but floating-point arithmetic: a computed block is
//! handed out resolved to numbers, and its result comes back as text.
use vstd::prelude::*;

pub mod nodes;
pub mod parser;
pub mod context;
pub mod render;
pub mod laws;

verus! {

} // verus!
