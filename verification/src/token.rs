//! Tokens and the literal values they carry.

use vstd::prelude::*;
use crate::token_type::TokenType;

verus! {

/// The mathematical value of an [`Object`].
pub enum ObjectView {
    /// The characters of a string literal, quotes excluded.
    Str(Seq<char>),
    /// The characters of a decimal numeral.
    Num(Seq<char>),
}

/// The decoded value of a literal token.
///
/// A number is carried as its decimal numeral: the digits of its whole part,
/// and then, optionally, a point and the digits of its fraction.
#[derive(Clone, Debug, PartialEq, Eq)]
pub enum Object {
    Str(String),
    Num(String),
}

impl View for Object {
    type V = ObjectView;

    open spec fn view(&self) -> ObjectView {
        match self {
            Object::Str(s) => ObjectView::Str(s@),
            Object::Num(s) => ObjectView::Num(s@),
        }
    }
}

impl DeepView for Object {
    type V = ObjectView;

    open spec fn deep_view(&self) -> ObjectView {
        self@
    }
}

/// The mathematical value of a [`Token`].
pub struct TokenView {
    pub kind: TokenType,
    pub lexeme: Seq<char>,
    pub literal: Option<ObjectView>,
    pub line: nat,
}

/// A classified lexeme.
#[derive(Clone, Debug, PartialEq, Eq)]
pub struct Token {
    /// What the lexeme is.
    pub kind: TokenType,
    /// The exact text that the token was read from.
    pub lexeme: String,
    /// The decoded value, for strings and numbers.
    pub literal: Option<Object>,
    /// The line, counted from 1, on which the lexeme begins.
    pub line: usize,
}

impl View for Token {
    type V = TokenView;

    open spec fn view(&self) -> TokenView {
        TokenView {
            kind: self.kind,
            lexeme: self.lexeme@,
            literal: match self.literal {
                Some(object) => Some(object@),
                None => None,
            },
            line: self.line as nat,
        }
    }
}

impl DeepView for Token {
    type V = TokenView;

    open spec fn deep_view(&self) -> TokenView {
        self@
    }
}

impl Token {
    /// Makes a token from its parts.
    pub fn new(kind: TokenType, lexeme: String, literal: Option<Object>, line: usize) -> (token: Token)
        ensures
            token.kind == kind,
            token.lexeme == lexeme,
            token.literal == literal,
            token.line == line,
    {
        Token { kind, lexeme, literal, line }
    }

    /// Makes the token that ends every scan: it has no text and no value.
    pub fn eof(line: usize) -> (token: Token)
        ensures
            token@ == (TokenView {
                kind: TokenType::Eof,
                lexeme: Seq::empty(),
                literal: None,
                line: line as nat,
            }),
    {
        Token { kind: TokenType::Eof, lexeme: String::new(), literal: None, line }
    }
}

} // verus!
