//! Tokens: the classified lexemes that the scanner produces.

pub mod token_type;

use crate::chars::digit_char;
use crate::token::token_type::TokenType;
use vstd::prelude::*;

verus! {

/// A number literal as it is written: the decimal digits before and after the
/// decimal point, most significant first, each as its value `0..=9`.
#[derive(Debug, Clone, PartialEq, Eq)]
pub struct Decimal {
    pub whole: Vec<u8>,
    pub fraction: Vec<u8>,
}

/// The mathematical content of a `Decimal`.
pub struct DecimalView {
    pub whole: Seq<u8>,
    pub fraction: Seq<u8>,
}

impl View for Decimal {
    type V = DecimalView;

    open spec fn view(&self) -> DecimalView {
        DecimalView { whole: self.whole@, fraction: self.fraction@ }
    }
}

impl DecimalView {
    /// Every digit is a decimal digit and there is at least one before the
    /// point.
    pub open spec fn wf(self) -> bool {
        &&& self.whole.len() > 0
        &&& forall|i: int| 0 <= i < self.whole.len() ==> self.whole[i] <= 9
        &&& forall|i: int| 0 <= i < self.fraction.len() ==> self.fraction[i] <= 9
    }

    /// The literal as it is written: the digits before the point and, if any
    /// follow it, the point and the digits after it.
    pub open spec fn text(self) -> Seq<char> {
        let whole = self.whole.map_values(|d: u8| digit_char(d));
        if self.fraction.len() > 0 {
            whole + seq!['.'] + self.fraction.map_values(|d: u8| digit_char(d))
        } else {
            whole
        }
    }
}

/// The typed value that a token carries besides its lexeme.
#[derive(Debug, Clone, PartialEq, Eq)]
pub enum Literal {
    /// No value: punctuation, operators, identifiers, keywords, end of file.
    Absent,
    /// The value of a number literal, kept exact.
    Number(Decimal),
    /// The characters of a string literal, without the quotes.
    String(String),
}

/// The mathematical content of a `Literal`.
pub enum LiteralView {
    Absent,
    Number(DecimalView),
    String(Seq<char>),
}

impl View for Literal {
    type V = LiteralView;

    open spec fn view(&self) -> LiteralView {
        match self {
            Literal::Absent => LiteralView::Absent,
            Literal::Number(d) => LiteralView::Number(d@),
            Literal::String(s) => LiteralView::String(s@),
        }
    }
}

/// One lexeme of the source, classified.
#[derive(Debug, Clone, PartialEq, Eq)]
pub struct Token {
    /// What kind of lexeme this is.
    pub kind: TokenType,
    /// The source text of the lexeme; for a string literal, the text between
    /// the quotes.
    pub lexeme: String,
    /// The value of a literal.
    pub literal: Literal,
    /// The line, counted from 1, on which the lexeme starts.
    pub line: u32,
}

/// The mathematical content of a `Token`.
pub struct TokenView {
    pub kind: TokenType,
    pub lexeme: Seq<char>,
    pub literal: LiteralView,
    pub line: nat,
}

impl View for Token {
    type V = TokenView;

    open spec fn view(&self) -> TokenView {
        TokenView {
            kind: self.kind,
            lexeme: self.lexeme@,
            literal: self.literal@,
            line: self.line as nat,
        }
    }
}

impl Token {
    /// Builds a token from its four parts.
    pub fn new(kind: TokenType, lexeme: String, literal: Literal, line: u32) -> (token: Token)
        ensures
            token == (Token { kind, lexeme, literal, line }),
    {
        Token { kind, lexeme, literal, line }
    }
}

/// The views of a sequence of tokens, in order.
pub open spec fn token_views(tokens: Seq<Token>) -> Seq<TokenView> {
    tokens.map_values(|t: Token| t@)
}

/// The kinds of a sequence of tokens, in order.
pub open spec fn token_kinds(tokens: Seq<TokenView>) -> Seq<TokenType> {
    tokens.map_values(|t: TokenView| t.kind)
}

} // verus!
