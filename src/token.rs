use vstd::prelude::*;

verus! {

/// Line and column in the source, both counted from zero.
#[derive(Debug, Clone, Copy, PartialEq, Eq)]
pub struct Position {
    pub line: usize,
    pub column: usize,
}

/// The location from which a lexeme was read.
#[derive(Debug, Clone, PartialEq)]
pub enum LexemeLocation {
    File {
        /// The file wherein the lexeme was encountered, if any.
        path: Option<String>,
        /// Where the first character of the lexeme stood.
        position: Position,
    },
    Repl,
    Internal,
}

/// The exact source text of a token and where it stood.
#[derive(Debug, Clone, PartialEq)]
pub struct Lexeme {
    pub content: String,
    pub location: LexemeLocation,
}

/// A classified token with its literal payload, if any.
///
/// A float literal keeps its numeral text: its value is computed by whoever
/// evaluates it.
#[derive(Debug, Clone, PartialEq)]
pub enum Token {
    ParenLeft,
    ParenRight,
    CurlyLeft,
    CurlyRight,
    SquareLeft,
    SquareRight,
    Comma,
    Dot,
    Minus,
    Plus,
    Slash,
    Star,
    Bang,
    BangEqual,
    Equal,
    EqualEqual,
    Greater,
    GreaterEqual,
    Less,
    LessEqual,
    Function,
    Return,
    Let,
    If,
    Else,
    For,
    While,
    Identifier(String),
    Nil,
    Bool(bool),
    Integer(i64),
    Float(String),
    Str(String),
    Semicolon,
}

/// A token together with the lexeme it was read from.
#[derive(Debug, Clone, PartialEq)]
pub struct TokenExt {
    pub token: Token,
    pub lexeme: Lexeme,
}

} // verus!
