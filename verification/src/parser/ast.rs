//! The parts of the syntax-tree vocabulary that carry no source references:
//! a named type and the binary/unary operator set.

use vstd::prelude::*;

verus! {

/// A named type, as spelled in the source.
#[derive(Debug, Clone, PartialEq, Eq)]
pub struct Type {
    pub name: String,
}

/// An operator of an expression.
#[derive(Debug, Clone, Copy, PartialEq, Eq)]
pub enum Op {
    PLUS,
    MINUS,
    SLASH,
    STAR,
}

} // verus!
