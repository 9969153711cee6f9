//! Lexical-analysis front end for a small programming language: it turns raw
//! source text into an ordered sequence of classified tokens, each annotated
//! with a precise source position. Lexing is total: malformed input never
//! aborts the scan, it yields `Invalid` tokens carrying the specific error.

pub mod errors;
pub mod lexer;
pub mod parser;
