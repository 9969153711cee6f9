//! The token and lexical-error vocabulary produced by the lexer.
//!
//! `Token` is the executable type; its mathematical view is `TokenModel`,
//! where every carried spelling is a `Seq<char>`. Numeric literals carry
//! their spelling (with formatting underscores already stripped) rather than
//! a machine value, string literals carry their decoded contents with escape
//! sequences already resolved, and boolean literals carry their spelling.

use vstd::prelude::*;

verus! {

/// A recoverable, in-band malformed-input condition, carried as the payload
/// of `Token::Invalid` rather than thrown: lexing never aborts on a single
/// bad character.
#[derive(Clone, Copy, Debug, PartialEq, Eq, Structural)]
pub enum LexerError {
    /// The character after a backslash is not a recognized escape.
    InvalidEscapeSequence(char),
    /// A required delimiter (e.g. a closing quote) was missing.
    Expected(char),
    /// No lexical rule matches the character.
    UnknownChar(char),
}

/// An atomic lexical unit classified from source text.
#[derive(Clone, Debug, PartialEq, Eq)]
pub enum Token {
    Ident(String),
    // Literals
    String(String),
    Int(String),
    Float(String),
    Bool(String),
    // Keywords
    And,
    Const,
    Elif,
    Else,
    For,
    Fun,
    If,
    Import,
    Let,
    Match,
    Mut,
    Not,
    Or,
    Return,
    While,
    // Operators
    Eq,
    EqEq,
    Neq,
    Gt,
    Lt,
    GtEq,
    LtEq,
    Plus,
    Minus,
    Star,
    Slash,
    OpenParen,
    CloseParen,
    OpenBracket,
    CloseBracket,
    OpenBrace,
    CloseBrace,
    Semi,
    Comma,
    Dot,
    Amp,
    Pipe,
    Bang,
    Backslash,
    // Miscellaneous
    Whitespace,
    Eof,
    Invalid(LexerError),
}

/// The mathematical model of a `Token`: the same taxonomy with every carried
/// spelling a sequence of characters.
pub enum TokenModel {
    Ident(Seq<char>),
    String(Seq<char>),
    Int(Seq<char>),
    Float(Seq<char>),
    Bool(Seq<char>),
    And,
    Const,
    Elif,
    Else,
    For,
    Fun,
    If,
    Import,
    Let,
    Match,
    Mut,
    Not,
    Or,
    Return,
    While,
    Eq,
    EqEq,
    Neq,
    Gt,
    Lt,
    GtEq,
    LtEq,
    Plus,
    Minus,
    Star,
    Slash,
    OpenParen,
    CloseParen,
    OpenBracket,
    CloseBracket,
    OpenBrace,
    CloseBrace,
    Semi,
    Comma,
    Dot,
    Amp,
    Pipe,
    Bang,
    Backslash,
    Whitespace,
    Eof,
    Invalid(LexerError),
}

impl View for Token {
    type V = TokenModel;

    open spec fn view(&self) -> TokenModel {
        match self {
            Token::Ident(s) => TokenModel::Ident(s@),
            Token::String(s) => TokenModel::String(s@),
            Token::Int(s) => TokenModel::Int(s@),
            Token::Float(s) => TokenModel::Float(s@),
            Token::Bool(s) => TokenModel::Bool(s@),
            Token::And => TokenModel::And,
            Token::Const => TokenModel::Const,
            Token::Elif => TokenModel::Elif,
            Token::Else => TokenModel::Else,
            Token::For => TokenModel::For,
            Token::Fun => TokenModel::Fun,
            Token::If => TokenModel::If,
            Token::Import => TokenModel::Import,
            Token::Let => TokenModel::Let,
            Token::Match => TokenModel::Match,
            Token::Mut => TokenModel::Mut,
            Token::Not => TokenModel::Not,
            Token::Or => TokenModel::Or,
            Token::Return => TokenModel::Return,
            Token::While => TokenModel::While,
            Token::Eq => TokenModel::Eq,
            Token::EqEq => TokenModel::EqEq,
            Token::Neq => TokenModel::Neq,
            Token::Gt => TokenModel::Gt,
            Token::Lt => TokenModel::Lt,
            Token::GtEq => TokenModel::GtEq,
            Token::LtEq => TokenModel::LtEq,
            Token::Plus => TokenModel::Plus,
            Token::Minus => TokenModel::Minus,
            Token::Star => TokenModel::Star,
            Token::Slash => TokenModel::Slash,
            Token::OpenParen => TokenModel::OpenParen,
            Token::CloseParen => TokenModel::CloseParen,
            Token::OpenBracket => TokenModel::OpenBracket,
            Token::CloseBracket => TokenModel::CloseBracket,
            Token::OpenBrace => TokenModel::OpenBrace,
            Token::CloseBrace => TokenModel::CloseBrace,
            Token::Semi => TokenModel::Semi,
            Token::Comma => TokenModel::Comma,
            Token::Dot => TokenModel::Dot,
            Token::Amp => TokenModel::Amp,
            Token::Pipe => TokenModel::Pipe,
            Token::Bang => TokenModel::Bang,
            Token::Backslash => TokenModel::Backslash,
            Token::Whitespace => TokenModel::Whitespace,
            Token::Eof => TokenModel::Eof,
            Token::Invalid(e) => TokenModel::Invalid(*e),
        }
    }
}

impl Token {
    /// A copy of the token whose model is the same as this one's.
    pub fn duplicate(&self) -> (r: Token)
        ensures
            r@ == self@,
    {
        match self {
            Token::Ident(s) => Token::Ident(s.clone()),
            Token::String(s) => Token::String(s.clone()),
            Token::Int(s) => Token::Int(s.clone()),
            Token::Float(s) => Token::Float(s.clone()),
            Token::Bool(s) => Token::Bool(s.clone()),
            Token::And => Token::And,
            Token::Const => Token::Const,
            Token::Elif => Token::Elif,
            Token::Else => Token::Else,
            Token::For => Token::For,
            Token::Fun => Token::Fun,
            Token::If => Token::If,
            Token::Import => Token::Import,
            Token::Let => Token::Let,
            Token::Match => Token::Match,
            Token::Mut => Token::Mut,
            Token::Not => Token::Not,
            Token::Or => Token::Or,
            Token::Return => Token::Return,
            Token::While => Token::While,
            Token::Eq => Token::Eq,
            Token::EqEq => Token::EqEq,
            Token::Neq => Token::Neq,
            Token::Gt => Token::Gt,
            Token::Lt => Token::Lt,
            Token::GtEq => Token::GtEq,
            Token::LtEq => Token::LtEq,
            Token::Plus => Token::Plus,
            Token::Minus => Token::Minus,
            Token::Star => Token::Star,
            Token::Slash => Token::Slash,
            Token::OpenParen => Token::OpenParen,
            Token::CloseParen => Token::CloseParen,
            Token::OpenBracket => Token::OpenBracket,
            Token::CloseBracket => Token::CloseBracket,
            Token::OpenBrace => Token::OpenBrace,
            Token::CloseBrace => Token::CloseBrace,
            Token::Semi => Token::Semi,
            Token::Comma => Token::Comma,
            Token::Dot => Token::Dot,
            Token::Amp => Token::Amp,
            Token::Pipe => Token::Pipe,
            Token::Bang => Token::Bang,
            Token::Backslash => Token::Backslash,
            Token::Whitespace => Token::Whitespace,
            Token::Eof => Token::Eof,
            Token::Invalid(e) => Token::Invalid(*e),
        }
    }
}

} // verus!
