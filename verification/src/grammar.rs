//! The lexical grammar: what scanning a source text yields, as a mathematical
//! function of the text.
//!
//! A source text is a sequence of characters. Scanning proceeds in steps: the
//! step at an offset reads one lexeme (or a comment, a blank, or an erroneous
//! character), yields at most one token or one error, and names the offset at
//! which the next step begins.

use crate::chars::{continues_word, digit_value, is_blank, is_digit, starts_word};
use crate::error::{ErrorKind, ScanErrorView};
use crate::token::token_type::TokenType;
use crate::token::{DecimalView, LiteralView, TokenView};
use vstd::prelude::*;

verus! {

/// The number of the line, counted from 1, on which offset `pos` of `src` lies:
/// one more than the number of line feeds before it.
pub open spec fn line_at(src: Seq<char>, pos: int) -> nat {
    1 + src.take(pos).filter(|c: char| c == '\n').len()
}

/// Passing a character raises the line by one if the character is a line feed
/// and leaves it unchanged otherwise.
pub proof fn lemma_line_at_next(src: Seq<char>, pos: int)
    requires
        0 <= pos < src.len(),
    ensures
        line_at(src, pos + 1) == line_at(src, pos) + if src[pos] == '\n' {
            1nat
        } else {
            0nat
        },
{
    let feed = |c: char| c == '\n';
    src.lemma_take_succ_push(pos);
    src.take(pos).lemma_filter_len_push(feed, src[pos]);
}

/// The first line is line 1, and no offset lies on a line beyond the number of
/// characters before it plus one.
pub proof fn lemma_line_at_bounds(src: Seq<char>, pos: int)
    requires
        0 <= pos <= src.len(),
    ensures
        1 <= line_at(src, pos) <= pos + 1,
        line_at(src, 0) == 1,
{
    let feed = |c: char| c == '\n';
    src.take(pos).lemma_filter_len(feed);
    src.take(0).lemma_filter_len(feed);
}

/// The stretches of characters that the scanner consumes greedily.
#[derive(Clone, Copy, PartialEq, Eq, Structural)]
pub enum Run {
    /// Decimal digits.
    Digits,
    /// The characters of an identifier or keyword after its first.
    Word,
    /// A line comment: everything up to the next line feed.
    LineComment,
    /// The inside of a string literal: everything up to the next quote.
    StringBody,
}

/// Whether the character `c` belongs to a run of the given kind.
pub open spec fn in_run(run: Run, c: char) -> bool {
    match run {
        Run::Digits => is_digit(c),
        Run::Word => continues_word(c),
        Run::LineComment => c != '\n',
        Run::StringBody => c != '"',
    }
}

/// The offset at which the longest run of the given kind that starts at `pos`
/// ends: the first offset from `pos` on that holds a character outside the
/// run, or the length of `src` if there is none.
pub open spec fn run_end(src: Seq<char>, pos: int, run: Run) -> int
    decreases src.len() - pos,
{
    if 0 <= pos < src.len() && in_run(run, src[pos]) {
        run_end(src, pos + 1, run)
    } else {
        pos
    }
}

/// The offset just after the block comment that is open at `pos` with nesting
/// `depth`, or `None` if the input ends before the comment is closed. Each
/// `/*` opens one more level, each `*/` closes one.
pub open spec fn comment_close(src: Seq<char>, pos: int, depth: nat) -> Option<int>
    decreases src.len() - pos,
{
    if depth == 0 {
        Some(pos)
    } else if pos < 0 || pos >= src.len() {
        None
    } else if src[pos] == '*' && pos + 1 < src.len() && src[pos + 1] == '/' {
        comment_close(src, pos + 2, (depth - 1) as nat)
    } else if src[pos] == '/' && pos + 1 < src.len() && src[pos + 1] == '*' {
        comment_close(src, pos + 2, depth + 1)
    } else {
        comment_close(src, pos + 1, depth)
    }
}

/// Whether, at the end `whole` of a run of digits, a fraction follows: a
/// decimal point with a digit right behind it.
pub open spec fn has_fraction(src: Seq<char>, whole: int) -> bool {
    &&& 0 <= whole
    &&& whole + 1 < src.len()
    &&& src[whole] == '.'
    &&& is_digit(src[whole + 1])
}

/// The offset at which the number literal that starts at `pos` ends. A decimal
/// point belongs to the literal only if a digit follows it, and only once.
pub open spec fn number_end(src: Seq<char>, pos: int) -> int {
    let whole = run_end(src, pos, Run::Digits);
    if has_fraction(src, whole) {
        run_end(src, whole + 1, Run::Digits)
    } else {
        whole
    }
}

/// The values of a sequence of decimal digits.
pub open spec fn digit_values(digits: Seq<char>) -> Seq<u8> {
    digits.map_values(|c: char| digit_value(c))
}

/// The value of the number literal that starts at `pos`.
pub open spec fn number_value(src: Seq<char>, pos: int) -> DecimalView {
    let whole = run_end(src, pos, Run::Digits);
    DecimalView {
        whole: digit_values(src.subrange(pos, whole)),
        fraction: if has_fraction(src, whole) {
            digit_values(src.subrange(whole + 1, number_end(src, pos)))
        } else {
            Seq::empty()
        },
    }
}

/// The token kind of a punctuation character that stands for itself whatever
/// follows it.
pub open spec fn punctuation(c: char) -> Option<TokenType> {
    if c == ',' {
        Some(TokenType::Comma)
    } else if c == '.' {
        Some(TokenType::Dot)
    } else if c == '-' {
        Some(TokenType::Minus)
    } else if c == '+' {
        Some(TokenType::Plus)
    } else if c == ';' {
        Some(TokenType::Semicolon)
    } else if c == '*' {
        Some(TokenType::Star)
    } else if c == '(' {
        Some(TokenType::LeftParen)
    } else if c == ')' {
        Some(TokenType::RightParen)
    } else if c == '{' {
        Some(TokenType::LeftBrace)
    } else if c == '}' {
        Some(TokenType::RightBrace)
    } else {
        None
    }
}

/// The token kind of an operator character, alone or with `=` right behind it.
pub open spec fn operator(c: char, with_equal: bool) -> Option<TokenType> {
    if c == '!' {
        Some(if with_equal { TokenType::BangEqual } else { TokenType::Bang })
    } else if c == '=' {
        Some(if with_equal { TokenType::EqualEqual } else { TokenType::Equal })
    } else if c == '<' {
        Some(if with_equal { TokenType::LessEqual } else { TokenType::Less })
    } else if c == '>' {
        Some(if with_equal { TokenType::GreaterEqual } else { TokenType::Greater })
    } else {
        None
    }
}

/// The token kind of a word: that of the keyword it spells, or `Identifier`.
pub open spec fn word_kind(word: Seq<char>) -> TokenType {
    if word == "and"@ {
        TokenType::And
    } else if word == "class"@ {
        TokenType::Class
    } else if word == "else"@ {
        TokenType::Else
    } else if word == "false"@ {
        TokenType::False
    } else if word == "for"@ {
        TokenType::For
    } else if word == "fun"@ {
        TokenType::Fun
    } else if word == "if"@ {
        TokenType::If
    } else if word == "nil"@ {
        TokenType::Nil
    } else if word == "or"@ {
        TokenType::Or
    } else if word == "print"@ {
        TokenType::Print
    } else if word == "return"@ {
        TokenType::Return
    } else if word == "super"@ {
        TokenType::Super
    } else if word == "this"@ {
        TokenType::This
    } else if word == "true"@ {
        TokenType::True
    } else if word == "var"@ {
        TokenType::Var
    } else if word == "while"@ {
        TokenType::While
    } else {
        TokenType::Identifier
    }
}

/// What one step of scanning yields.
pub struct Step {
    /// The offset at which the next step begins.
    pub next: int,
    /// The token that the step produced, if any.
    pub token: Option<TokenView>,
    /// The error that the step met, if any.
    pub error: Option<ScanErrorView>,
}

/// A step that produces a token without a literal, whose lexeme is the source
/// text from `pos` to `end`.
pub open spec fn plain(src: Seq<char>, pos: int, end: int, kind: TokenType) -> Step {
    Step {
        next: end,
        token: Some(
            TokenView {
                kind,
                lexeme: src.subrange(pos, end),
                literal: LiteralView::Absent,
                line: line_at(src, pos),
            },
        ),
        error: None,
    }
}

/// A step that produces nothing and goes on at `next`.
pub open spec fn skip(next: int) -> Step {
    Step { next, token: None, error: None }
}

/// A step that meets an error on the line of offset `at` and goes on at
/// `next`.
pub open spec fn fail(src: Seq<char>, at: int, next: int, kind: ErrorKind) -> Step {
    Step { next, token: None, error: Some(ScanErrorView { line: line_at(src, at), kind }) }
}

/// What the first character of a step makes of it. The classes are tried in
/// the order in which they are listed, so each character has exactly one.
pub enum Lead {
    /// A punctuation character that stands for itself.
    Punctuation,
    /// One of `!`, `=`, `<`, `>`, which absorbs an `=` right behind it.
    Operator,
    /// `/`: a division sign, or the start of a comment.
    Slash,
    /// `"`: the start of a string literal.
    Quote,
    /// White space or a line feed.
    Blank,
    /// The first digit of a number literal.
    Digit,
    /// The first character of an identifier or keyword.
    Word,
    /// A character that begins no lexeme.
    Unexpected,
}

/// The class of a character that begins a step.
pub open spec fn lead(c: char) -> Lead {
    if punctuation(c) is Some {
        Lead::Punctuation
    } else if operator(c, false) is Some {
        Lead::Operator
    } else if c == '/' {
        Lead::Slash
    } else if c == '"' {
        Lead::Quote
    } else if is_blank(c) {
        Lead::Blank
    } else if is_digit(c) {
        Lead::Digit
    } else if starts_word(c) {
        Lead::Word
    } else {
        Lead::Unexpected
    }
}

/// The step at an operator character: the longest match wins, so an `=` right
/// behind it always belongs to the operator.
pub open spec fn operator_step(src: Seq<char>, pos: int) -> Step {
    if pos + 1 < src.len() && src[pos + 1] == '=' {
        plain(src, pos, pos + 2, operator(src[pos], true)->0)
    } else {
        plain(src, pos, pos + 1, operator(src[pos], false)->0)
    }
}

/// The step at a block comment whose opening `/*` stands at `pos`. An
/// unclosed comment runs to the end of the source, where the error is met.
pub open spec fn block_comment_step(src: Seq<char>, pos: int) -> Step {
    match comment_close(src, pos + 2, 1) {
        Some(end) => skip(end),
        None => fail(
            src,
            src.len() as int,
            src.len() as int,
            ErrorKind::UnterminatedBlockComment,
        ),
    }
}

/// The step at a `/`: a line comment up to, not including, the next line feed;
/// a block comment; or the division sign.
pub open spec fn slash_step(src: Seq<char>, pos: int) -> Step {
    if pos + 1 < src.len() && src[pos + 1] == '/' {
        skip(run_end(src, pos + 2, Run::LineComment))
    } else if pos + 1 < src.len() && src[pos + 1] == '*' {
        block_comment_step(src, pos)
    } else {
        plain(src, pos, pos + 1, TokenType::Slash)
    }
}

/// The step at a string literal whose opening quote stands at `pos`. Lexeme
/// and literal are the text between the quotes. An unclosed string runs to the
/// end of the source, where the error is met.
pub open spec fn string_step(src: Seq<char>, pos: int) -> Step {
    let close = run_end(src, pos + 1, Run::StringBody);
    if close < src.len() {
        Step {
            next: close + 1,
            token: Some(
                TokenView {
                    kind: TokenType::String,
                    lexeme: src.subrange(pos + 1, close),
                    literal: LiteralView::String(src.subrange(pos + 1, close)),
                    line: line_at(src, pos),
                },
            ),
            error: None,
        }
    } else {
        fail(src, src.len() as int, src.len() as int, ErrorKind::UnterminatedString)
    }
}

/// The step at a number literal whose first digit stands at `pos`.
pub open spec fn number_step(src: Seq<char>, pos: int) -> Step {
    Step {
        next: number_end(src, pos),
        token: Some(
            TokenView {
                kind: TokenType::Number,
                lexeme: src.subrange(pos, number_end(src, pos)),
                literal: LiteralView::Number(number_value(src, pos)),
                line: line_at(src, pos),
            },
        ),
        error: None,
    }
}

/// The step at an identifier or keyword whose first character stands at
/// `pos`.
pub open spec fn word_step(src: Seq<char>, pos: int) -> Step {
    let end = run_end(src, pos + 1, Run::Word);
    plain(src, pos, end, word_kind(src.subrange(pos, end)))
}

/// The step that begins at offset `pos` of `src`, decided by the character
/// found there.
pub open spec fn step(src: Seq<char>, pos: int) -> Step
    recommends
        0 <= pos < src.len(),
{
    match lead(src[pos]) {
        Lead::Punctuation => plain(src, pos, pos + 1, punctuation(src[pos])->0),
        Lead::Operator => operator_step(src, pos),
        Lead::Slash => slash_step(src, pos),
        Lead::Quote => string_step(src, pos),
        Lead::Blank => skip(pos + 1),
        Lead::Digit => number_step(src, pos),
        Lead::Word => word_step(src, pos),
        Lead::Unexpected => fail(src, pos, pos + 1, ErrorKind::UnexpectedCharacter),
    }
}

/// A run ends between its start and the end of the source; every character
/// before its end belongs to it, and the character at its end, if there is
/// one, does not.
pub proof fn lemma_run_end(src: Seq<char>, pos: int, run: Run)
    requires
        0 <= pos <= src.len(),
    ensures
        pos <= run_end(src, pos, run) <= src.len(),
        forall|i: int| pos <= i < run_end(src, pos, run) ==> in_run(run, #[trigger] src[i]),
        run_end(src, pos, run) < src.len() ==> !in_run(run, src[run_end(src, pos, run)]),
    decreases src.len() - pos,
{
    if pos < src.len() && in_run(run, src[pos]) {
        lemma_run_end(src, pos + 1, run);
    }
}

/// A block comment closes, if at all, between where it is scanned from and the
/// end of the source.
pub proof fn lemma_comment_close_bounds(src: Seq<char>, pos: int, depth: nat)
    requires
        0 <= pos <= src.len(),
    ensures
        comment_close(src, pos, depth) matches Some(end) ==> pos <= end <= src.len(),
    decreases src.len() - pos,
{
    if depth == 0 || pos >= src.len() {
    } else if src[pos] == '*' && pos + 1 < src.len() && src[pos + 1] == '/' {
        lemma_comment_close_bounds(src, pos + 2, (depth - 1) as nat);
    } else if src[pos] == '/' && pos + 1 < src.len() && src[pos + 1] == '*' {
        lemma_comment_close_bounds(src, pos + 2, depth + 1);
    } else {
        lemma_comment_close_bounds(src, pos + 1, depth);
    }
}

/// Every step consumes at least one character and stays within the source.
pub proof fn lemma_step_advances(src: Seq<char>, pos: int)
    requires
        0 <= pos < src.len(),
    ensures
        pos < step(src, pos).next <= src.len(),
{
    if is_digit(src[pos]) {
        lemma_run_end(src, pos + 1, Run::Digits);
        let whole = run_end(src, pos, Run::Digits);
        if has_fraction(src, whole) {
            lemma_run_end(src, whole + 1, Run::Digits);
        }
    }
    lemma_run_end(src, pos + 1, Run::Word);
    lemma_run_end(src, pos + 1, Run::StringBody);
    if pos + 1 < src.len() {
        lemma_run_end(src, pos + 2, Run::LineComment);
        lemma_comment_close_bounds(src, pos + 2, 1);
    }
}

/// The tokens that scanning yields from offset `pos` on, in order, without the
/// final end-of-file token.
pub open spec fn tokens_from(src: Seq<char>, pos: int) -> Seq<TokenView>
    decreases src.len() - pos,
    via tokens_from_terminates
{
    if 0 <= pos < src.len() {
        let s = step(src, pos);
        match s.token {
            Some(token) => seq![token] + tokens_from(src, s.next),
            None => tokens_from(src, s.next),
        }
    } else {
        Seq::empty()
    }
}

#[via_fn]
proof fn tokens_from_terminates(src: Seq<char>, pos: int) {
    if 0 <= pos < src.len() {
        lemma_step_advances(src, pos);
    }
}

/// The errors that scanning meets from offset `pos` on, in order.
pub open spec fn errors_from(src: Seq<char>, pos: int) -> Seq<ScanErrorView>
    decreases src.len() - pos,
    via errors_from_terminates
{
    if 0 <= pos < src.len() {
        let s = step(src, pos);
        match s.error {
            Some(error) => seq![error] + errors_from(src, s.next),
            None => errors_from(src, s.next),
        }
    } else {
        Seq::empty()
    }
}

#[via_fn]
proof fn errors_from_terminates(src: Seq<char>, pos: int) {
    if 0 <= pos < src.len() {
        lemma_step_advances(src, pos);
    }
}

/// The offsets at which the tokens of `tokens_from(src, pos)` start, in the
/// same order. A string literal starts at its opening quote.
pub open spec fn token_offsets_from(src: Seq<char>, pos: int) -> Seq<int>
    decreases src.len() - pos,
    via token_offsets_from_terminates
{
    if 0 <= pos < src.len() {
        let s = step(src, pos);
        match s.token {
            Some(_) => seq![pos] + token_offsets_from(src, s.next),
            None => token_offsets_from(src, s.next),
        }
    } else {
        Seq::empty()
    }
}

#[via_fn]
proof fn token_offsets_from_terminates(src: Seq<char>, pos: int) {
    if 0 <= pos < src.len() {
        lemma_step_advances(src, pos);
    }
}

/// The offset at which the error of the step at `pos`, if it has one, is met:
/// an unexpected character where it stands, an unclosed string or comment at
/// the end of the source.
pub open spec fn error_offset(src: Seq<char>, pos: int) -> int {
    if lead(src[pos]) is Unexpected {
        pos
    } else {
        src.len() as int
    }
}

/// The offsets at which the errors of `errors_from(src, pos)` are met, in the
/// same order.
pub open spec fn error_offsets_from(src: Seq<char>, pos: int) -> Seq<int>
    decreases src.len() - pos,
    via error_offsets_from_terminates
{
    if 0 <= pos < src.len() {
        let s = step(src, pos);
        match s.error {
            Some(_) => seq![error_offset(src, pos)] + error_offsets_from(src, s.next),
            None => error_offsets_from(src, s.next),
        }
    } else {
        Seq::empty()
    }
}

#[via_fn]
proof fn error_offsets_from_terminates(src: Seq<char>, pos: int) {
    if 0 <= pos < src.len() {
        lemma_step_advances(src, pos);
    }
}

/// The token that ends every scan: its kind is `Eof`, its lexeme is empty and
/// its line is that of the end of the source.
pub open spec fn end_of_file(src: Seq<char>) -> TokenView {
    TokenView {
        kind: TokenType::Eof,
        lexeme: Seq::empty(),
        literal: LiteralView::Absent,
        line: line_at(src, src.len() as int),
    }
}

/// What a scan yields: the tokens in source order and the errors in the order
/// in which they were met.
pub struct Scan {
    pub tokens: Seq<TokenView>,
    pub errors: Seq<ScanErrorView>,
}

/// The result of scanning the whole of `src`.
pub open spec fn scan(src: Seq<char>) -> Scan {
    Scan { tokens: tokens_from(src, 0).push(end_of_file(src)), errors: errors_from(src, 0) }
}

/// The offsets at which the tokens of `scan(src)` start, in the same order.
/// The end-of-file token starts at the end of the source.
pub open spec fn token_offsets(src: Seq<char>) -> Seq<int> {
    token_offsets_from(src, 0).push(src.len() as int)
}

/// The offsets at which the errors of `scan(src)` are met, in the same order.
pub open spec fn error_offsets(src: Seq<char>) -> Seq<int> {
    error_offsets_from(src, 0)
}

} // verus!
