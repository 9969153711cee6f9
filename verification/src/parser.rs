//! Data shared with the parsing phase that consumes the token stream.

pub mod ast;
