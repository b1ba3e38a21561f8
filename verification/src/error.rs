//! Lexical errors. The scanner never stops at one: it records the error with
//! its line and goes on with the next character.

use vstd::prelude::*;

verus! {

/// The three ways in which source text can be lexically wrong.
#[derive(Debug, Clone, Copy, PartialEq, Eq, Hash, Structural)]
pub enum ErrorKind {
    /// A character that begins no lexeme.
    UnexpectedCharacter,
    /// The input ended inside a block comment.
    UnterminatedBlockComment,
    /// The input ended inside a string literal.
    UnterminatedString,
}

impl ErrorKind {
    /// The text shown to the user for this kind of error.
    pub open spec fn message_text(self) -> Seq<char> {
        match self {
            ErrorKind::UnexpectedCharacter => "Unexpected character"@,
            ErrorKind::UnterminatedBlockComment => "Unterminated Block Comment"@,
            ErrorKind::UnterminatedString => "Unterminated String!"@,
        }
    }

    /// The text shown to the user for this kind of error.
    pub fn message(self) -> (text: &'static str)
        ensures
            text@ == self.message_text(),
    {
        match self {
            ErrorKind::UnexpectedCharacter => "Unexpected character",
            ErrorKind::UnterminatedBlockComment => "Unterminated Block Comment",
            ErrorKind::UnterminatedString => "Unterminated String!",
        }
    }
}

/// A lexical error and the line, counted from 1, on which it was met.
#[derive(Debug, Clone, Copy, PartialEq, Eq, Hash, Structural)]
pub struct ScanError {
    pub line: u32,
    pub kind: ErrorKind,
}

/// The mathematical content of a `ScanError`.
pub struct ScanErrorView {
    pub line: nat,
    pub kind: ErrorKind,
}

impl View for ScanError {
    type V = ScanErrorView;

    open spec fn view(&self) -> ScanErrorView {
        ScanErrorView { line: self.line as nat, kind: self.kind }
    }
}

impl ScanError {
    /// The text shown to the user for this error.
    pub fn message(&self) -> (text: &'static str)
        ensures
            text@ == self.kind.message_text(),
    {
        self.kind.message()
    }
}

/// The views of a sequence of errors, in order.
pub open spec fn error_views(errors: Seq<ScanError>) -> Seq<ScanErrorView> {
    errors.map_values(|e: ScanError| e@)
}

} // verus!
