//! Lexical tokens: a category tag plus the literal text that was matched.

use vstd::prelude::*;

verus! {

/// The lexical category of a token.
#[derive(Debug, Clone, Copy, PartialEq, Eq, Structural)]
pub enum TokenKind {
    /// A character the lexer does not recognize.
    Illegal,
    /// End of the input.
    Eof,
    /// An identifier.
    Ident,
    /// An integer literal.
    Int,
    /// A string literal; the token's text is the raw content between quotes.
    Str,
    Assign,
    Plus,
    Minus,
    Bang,
    Asterisk,
    Slash,
    Lt,
    Gt,
    Equal,
    NotEqual,
    Comma,
    Semicolon,
    Colon,
    Lparen,
    Rparen,
    Lbrace,
    Rbrace,
    Lbracket,
    Rbracket,
    /// The `function` keyword.
    Function,
    /// The binding-declaration keyword `say`.
    Say,
    True,
    False,
    If,
    Else,
    Return,
}

/// One lexical unit: its category and the literal text matched.
#[derive(Debug)]
pub struct Token {
    pub kind: TokenKind,
    pub literal: String,
}

impl Clone for Token {
    fn clone(&self) -> (r: Self)
        ensures
            r == *self,
    {
        Token { kind: self.kind, literal: self.literal.clone() }
    }
}

/// Mathematical model of a token: the category and the text as a
/// sequence of characters.
pub struct SToken {
    pub kind: TokenKind,
    pub literal: Seq<char>,
}

impl View for Token {
    type V = SToken;

    open spec fn view(&self) -> SToken {
        SToken { kind: self.kind, literal: self.literal@ }
    }
}

impl Token {
    /// Build a token from a kind and its literal text.
    pub fn new(kind: TokenKind, literal: String) -> (t: Token)
        ensures
            t@ == (SToken { kind, literal: literal@ }),
    {
        Token { kind, literal }
    }
}

} // verus!
