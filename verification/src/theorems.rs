//! What holds of every scan, proved from the lexical grammar.

use crate::chars::{continues_word, digit_char, is_digit, starts_word};
use crate::error::{ErrorKind, ScanErrorView};
use crate::grammar::{
    digit_values, end_of_file, error_offsets, error_offsets_from, errors_from, has_fraction, lead,
    lemma_line_at_next, lemma_run_end, lemma_step_advances, line_at, number_end, operator,
    punctuation, run_end, scan, step, token_offsets, token_offsets_from, tokens_from, word_kind,
    Lead, Run,
};
use crate::token::token_type::TokenType;
use crate::token::{token_kinds, LiteralView, TokenView};
use vstd::prelude::*;

verus! {

/// No step produces an end-of-file token.
proof fn lemma_no_end_of_file_from(src: Seq<char>, pos: int)
    requires
        0 <= pos <= src.len(),
    ensures
        forall|i: int|
            0 <= i < tokens_from(src, pos).len() ==> (#[trigger] tokens_from(src, pos)[i]).kind
                != TokenType::Eof,
    decreases src.len() - pos,
{
    if pos < src.len() {
        lemma_step_advances(src, pos);
        lemma_no_end_of_file_from(src, step(src, pos).next);
    }
}

/// Every scan ends with the end-of-file token, and holds no other: the tokens
/// are never empty, the last one has kind `Eof` and an empty lexeme, and no
/// token before it has kind `Eof`. This holds whatever errors were met.
pub proof fn lemma_scan_ends_with_end_of_file(src: Seq<char>)
    ensures
        scan(src).tokens.len() >= 1,
        scan(src).tokens.last() == end_of_file(src),
        scan(src).tokens.last().kind == TokenType::Eof,
        scan(src).tokens.last().lexeme == Seq::<char>::empty(),
        forall|i: int|
            0 <= i < scan(src).tokens.len() - 1 ==> (#[trigger] scan(src).tokens[i]).kind
                != TokenType::Eof,
{
    lemma_no_end_of_file_from(src, 0);
}

/// The line of offset `to` is not before the line of an earlier offset
/// `from`.
pub proof fn lemma_line_at_monotone(src: Seq<char>, from: int, to: int)
    requires
        0 <= from <= to <= src.len(),
    ensures
        line_at(src, from) <= line_at(src, to),
    decreases to - from,
{
    if from < to {
        lemma_line_at_monotone(src, from, to - 1);
        lemma_line_at_next(src, to - 1);
    }
}

/// Tokens and their offsets, from `pos` on: there is one offset for each
/// token, the offsets lie in the source from `pos` on and increase strictly,
/// and each token carries the line of its offset.
proof fn lemma_tokens_from_offsets(src: Seq<char>, pos: int)
    requires
        0 <= pos <= src.len(),
    ensures
        token_offsets_from(src, pos).len() == tokens_from(src, pos).len(),
        forall|i: int|
            0 <= i < tokens_from(src, pos).len() ==> pos <= (#[trigger] token_offsets_from(
                src,
                pos,
            )[i]) < src.len(),
        forall|i: int, j: int|
            0 <= i < j < tokens_from(src, pos).len() ==> (#[trigger] token_offsets_from(
                src,
                pos,
            )[i]) < (#[trigger] token_offsets_from(src, pos)[j]),
        forall|i: int|
            0 <= i < tokens_from(src, pos).len() ==> (#[trigger] tokens_from(src, pos)[i]).line
                == line_at(src, token_offsets_from(src, pos)[i]),
    decreases src.len() - pos,
{
    if pos < src.len() {
        lemma_step_advances(src, pos);
        lemma_tokens_from_offsets(src, step(src, pos).next);
    }
}

/// Errors and their offsets, from `pos` on: there is one offset for each
/// error, the offsets lie in the source from `pos` on and never decrease, and
/// each error carries the line of its offset.
proof fn lemma_errors_from_offsets(src: Seq<char>, pos: int)
    requires
        0 <= pos <= src.len(),
    ensures
        error_offsets_from(src, pos).len() == errors_from(src, pos).len(),
        forall|i: int|
            0 <= i < errors_from(src, pos).len() ==> pos <= (#[trigger] error_offsets_from(
                src,
                pos,
            )[i]) <= src.len(),
        forall|i: int, j: int|
            0 <= i < j < errors_from(src, pos).len() ==> (#[trigger] error_offsets_from(
                src,
                pos,
            )[i]) <= (#[trigger] error_offsets_from(src, pos)[j]),
        forall|i: int|
            0 <= i < errors_from(src, pos).len() ==> (#[trigger] errors_from(src, pos)[i]).line
                == line_at(src, error_offsets_from(src, pos)[i]),
    decreases src.len() - pos,
{
    if pos < src.len() {
        lemma_step_advances(src, pos);
        lemma_errors_from_offsets(src, step(src, pos).next);
    }
}

/// Line tracking. Every token of a scan carries the line of the offset at
/// which it starts, and every error the line of the offset at which it is
/// met: one more than the number of line feeds before that offset. Line feeds
/// count wherever they stand, inside strings and comments too.
pub proof fn lemma_lines_count_line_feeds(src: Seq<char>)
    ensures
        token_offsets(src).len() == scan(src).tokens.len(),
        error_offsets(src).len() == scan(src).errors.len(),
        forall|i: int|
            0 <= i < scan(src).tokens.len() ==> 0 <= (#[trigger] token_offsets(src)[i])
                <= src.len(),
        forall|i: int|
            0 <= i < scan(src).errors.len() ==> 0 <= (#[trigger] error_offsets(src)[i])
                <= src.len(),
        forall|i: int|
            0 <= i < scan(src).tokens.len() ==> (#[trigger] scan(src).tokens[i]).line == 1
                + src.take(token_offsets(src)[i]).filter(|c: char| c == '\n').len(),
        forall|i: int|
            0 <= i < scan(src).errors.len() ==> (#[trigger] scan(src).errors[i]).line == 1
                + src.take(error_offsets(src)[i]).filter(|c: char| c == '\n').len(),
{
    lemma_tokens_from_offsets(src, 0);
    lemma_errors_from_offsets(src, 0);
}

/// Order. The tokens of a scan stand in source order: their offsets increase
/// strictly. Lines therefore never decrease from one token to the next, nor
/// from one error to the next.
pub proof fn lemma_scan_keeps_source_order(src: Seq<char>)
    ensures
        forall|i: int, j: int|
            0 <= i < j < scan(src).tokens.len() ==> (#[trigger] token_offsets(src)[i]) < (
            #[trigger] token_offsets(src)[j]),
        forall|i: int, j: int|
            0 <= i < j < scan(src).tokens.len() ==> (#[trigger] scan(src).tokens[i]).line <= (
            #[trigger] scan(src).tokens[j]).line,
        forall|i: int, j: int|
            0 <= i < j < scan(src).errors.len() ==> (#[trigger] scan(src).errors[i]).line <= (
            #[trigger] scan(src).errors[j]).line,
{
    lemma_tokens_from_offsets(src, 0);
    lemma_errors_from_offsets(src, 0);
    assert forall|i: int, j: int| 0 <= i < j < scan(src).tokens.len() implies (
    #[trigger] scan(src).tokens[i]).line <= (#[trigger] scan(src).tokens[j]).line by {
        assert(token_offsets(src)[i] < token_offsets(src)[j]);
        lemma_line_at_monotone(src, token_offsets(src)[i], token_offsets(src)[j]);
    }
    assert forall|i: int, j: int| 0 <= i < j < scan(src).errors.len() implies (
    #[trigger] scan(src).errors[i]).line <= (#[trigger] scan(src).errors[j]).line by {
        assert(error_offsets(src)[i] <= error_offsets(src)[j]);
        lemma_line_at_monotone(src, error_offsets(src)[i], error_offsets(src)[j]);
    }
}

/// Where the lexeme of a token that starts at offset `at` of `src` stands: a
/// string literal lies between its two quotes, any other lexeme begins at
/// `at`.
pub open spec fn lexeme_in_place(src: Seq<char>, token: TokenView, at: int) -> bool {
    let len = token.lexeme.len() as int;
    if token.kind == TokenType::String {
        &&& 0 <= at
        &&& at + len + 2 <= src.len()
        &&& src[at] == '"'
        &&& src[at + len + 1] == '"'
        &&& token.lexeme == src.subrange(at + 1, at + len + 1)
    } else {
        &&& 0 <= at
        &&& at + len <= src.len()
        &&& token.lexeme == src.subrange(at, at + len)
    }
}

/// What literal a token of a given kind carries: a number its value, in
/// decimal digits that spell the lexeme; a string the text of its lexeme; any
/// other token none.
pub open spec fn literal_fits(token: TokenView) -> bool {
    match token.literal {
        LiteralView::Number(value) => token.kind == TokenType::Number && value.wf()
            && value.text() == token.lexeme,
        LiteralView::String(text) => token.kind == TokenType::String && text == token.lexeme,
        LiteralView::Absent => token.kind != TokenType::Number && token.kind
            != TokenType::String,
    }
}

/// Writing out the values of decimal digits gives the digits back.
proof fn lemma_digits_round_trip(digits: Seq<char>)
    requires
        forall|i: int| 0 <= i < digits.len() ==> is_digit(#[trigger] digits[i]),
    ensures
        digit_values(digits).map_values(|d: u8| digit_char(d)) == digits,
        forall|i: int| 0 <= i < digits.len() ==> (#[trigger] digit_values(digits)[i]) <= 9,
{
    assert forall|i: int| 0 <= i < digits.len() implies digit_char(
        #[trigger] digit_values(digits)[i],
    ) == digits[i] && digit_values(digits)[i] <= 9 by {
        assert(is_digit(digits[i]));
    }
    assert(digit_values(digits).map_values(|d: u8| digit_char(d)) =~= digits);
}

/// The token of the step at `pos`, if it has one, has its lexeme in place at
/// `pos` and a literal that fits its kind.
proof fn lemma_step_token(src: Seq<char>, pos: int)
    requires
        0 <= pos < src.len(),
    ensures
        step(src, pos).token matches Some(token) ==> lexeme_in_place(src, token, pos)
            && literal_fits(token),
{
    lemma_step_advances(src, pos);
    match lead(src[pos]) {
        Lead::Quote => {
            lemma_run_end(src, pos + 1, Run::StringBody);
        },
        Lead::Digit => {
            lemma_run_end(src, pos, Run::Digits);
            let whole = run_end(src, pos, Run::Digits);
            let end = number_end(src, pos);
            lemma_digits_round_trip(src.subrange(pos, whole));
            if has_fraction(src, whole) {
                lemma_run_end(src, whole + 1, Run::Digits);
                lemma_digits_round_trip(src.subrange(whole + 1, end));
                assert(src.subrange(pos, end) =~= src.subrange(pos, whole) + seq!['.']
                    + src.subrange(whole + 1, end));
            }
        },
        Lead::Word => {
            lemma_run_end(src, pos + 1, Run::Word);
        },
        _ => {},
    }
}

/// From `pos` on, every token has its lexeme in place at its offset and a
/// literal that fits its kind.
proof fn lemma_tokens_from_in_place(src: Seq<char>, pos: int)
    requires
        0 <= pos <= src.len(),
    ensures
        token_offsets_from(src, pos).len() == tokens_from(src, pos).len(),
        forall|i: int|
            0 <= i < tokens_from(src, pos).len() ==> lexeme_in_place(
                src,
                #[trigger] tokens_from(src, pos)[i],
                token_offsets_from(src, pos)[i],
            ),
        forall|i: int|
            0 <= i < tokens_from(src, pos).len() ==> literal_fits(
                #[trigger] tokens_from(src, pos)[i],
            ),
    decreases src.len() - pos,
{
    if pos < src.len() {
        lemma_step_advances(src, pos);
        lemma_step_token(src, pos);
        lemma_tokens_from_in_place(src, step(src, pos).next);
    }
}

/// Lexemes. The lexeme of every token is the very text of the source at the
/// offset at which the token starts, counted in characters; that of a string
/// literal is the text between its quotes.
pub proof fn lemma_lexemes_are_source_text(src: Seq<char>)
    ensures
        token_offsets(src).len() == scan(src).tokens.len(),
        forall|i: int|
            0 <= i < scan(src).tokens.len() ==> lexeme_in_place(
                src,
                #[trigger] scan(src).tokens[i],
                token_offsets(src)[i],
            ),
{
    lemma_tokens_from_in_place(src, 0);
    assert(src.subrange(src.len() as int, src.len() as int) =~= Seq::<char>::empty());
}

/// Literals. A number token carries its value as well-formed decimal digits
/// which, written out, are its lexeme; a string token carries the text of its
/// lexeme; and no other token carries a literal.
pub proof fn lemma_literals_fit_kinds(src: Seq<char>)
    ensures
        forall|i: int|
            0 <= i < scan(src).tokens.len() ==> literal_fits(#[trigger] scan(src).tokens[i]),
{
    lemma_tokens_from_in_place(src, 0);
}

/// The kind of the token that the character at offset `i` makes all by
/// itself: a punctuation character that needs no look-ahead, or a `/` behind
/// which no comment begins.
pub open spec fn punctuation_at(src: Seq<char>, i: int) -> Option<TokenType> {
    if punctuation(src[i]) is Some {
        punctuation(src[i])
    } else if src[i] == '/' && !(i + 1 < src.len() && (src[i + 1] == '/' || src[i + 1] == '*')) {
        Some(TokenType::Slash)
    } else {
        None
    }
}

/// The source consists of nothing but such punctuation and blanks.
pub open spec fn only_punctuation(src: Seq<char>) -> bool {
    forall|i: int|
        0 <= i < src.len() ==> punctuation_at(src, i) is Some || lead(#[trigger] src[i]) is Blank
}

/// The kinds of the punctuation from offset `pos` on, in source order.
pub open spec fn punctuation_from(src: Seq<char>, pos: int) -> Seq<TokenType>
    decreases src.len() - pos,
{
    if 0 <= pos < src.len() {
        match punctuation_at(src, pos) {
            Some(kind) => seq![kind] + punctuation_from(src, pos + 1),
            None => punctuation_from(src, pos + 1),
        }
    } else {
        Seq::empty()
    }
}

/// In a source of punctuation and blanks, the tokens from `pos` on are the
/// punctuation from `pos` on, and there are no errors.
proof fn lemma_punctuation_from(src: Seq<char>, pos: int)
    requires
        only_punctuation(src),
        0 <= pos <= src.len(),
    ensures
        token_kinds(tokens_from(src, pos)) == punctuation_from(src, pos),
        errors_from(src, pos) == Seq::<ScanErrorView>::empty(),
    decreases src.len() - pos,
{
    if pos < src.len() {
        assert(punctuation_at(src, pos) is Some || lead(src[pos]) is Blank);
        lemma_punctuation_from(src, pos + 1);
        let rest = tokens_from(src, pos + 1);
        match step(src, pos).token {
            Some(token) => {
                assert(token_kinds(seq![token] + rest) =~= seq![token.kind] + token_kinds(rest));
            },
            None => {},
        }
    } else {
        assert(token_kinds(tokens_from(src, pos)) =~= Seq::<TokenType>::empty());
    }
}

/// Punctuation. Where the source consists only of single-character
/// punctuation and blanks between them, the kinds of the tokens are the
/// punctuation in source order, followed by `Eof`, and no error is met.
pub proof fn lemma_punctuation_scans_in_order(src: Seq<char>)
    requires
        only_punctuation(src),
    ensures
        token_kinds(scan(src).tokens) == punctuation_from(src, 0).push(TokenType::Eof),
        scan(src).errors == Seq::<ScanErrorView>::empty(),
{
    lemma_punctuation_from(src, 0);
    assert(token_kinds(scan(src).tokens) =~= token_kinds(tokens_from(src, 0)).push(
        TokenType::Eof,
    ));
}

/// Longest match. An `=` right behind `!`, `=`, `<` or `>` always belongs to
/// the operator: the step yields one token of two characters, never two
/// tokens of one.
pub proof fn lemma_equal_is_absorbed(src: Seq<char>, pos: int)
    requires
        0 <= pos,
        pos + 1 < src.len(),
        src[pos] == '!' || src[pos] == '=' || src[pos] == '<' || src[pos] == '>',
        src[pos + 1] == '=',
    ensures
        step(src, pos).next == pos + 2,
        step(src, pos).error is None,
        step(src, pos).token is Some,
        step(src, pos).token->0.lexeme == src.subrange(pos, pos + 2),
        step(src, pos).token->0.kind == operator(src[pos], true)->0,
{
}

/// Where an error stands: an unexpected character is reported where it
/// stands, and the scan goes on behind it; an unclosed string or comment is
/// reported at the end of the source, and is the last error of the scan.
pub open spec fn error_in_place(src: Seq<char>, error: ScanErrorView, at: int, last: bool) -> bool {
    if error.kind == ErrorKind::UnexpectedCharacter {
        0 <= at < src.len() && lead(src[at]) is Unexpected
    } else {
        at == src.len() && last
    }
}

/// From `pos` on, every error stands in its place.
proof fn lemma_errors_from_in_place(src: Seq<char>, pos: int)
    requires
        0 <= pos <= src.len(),
    ensures
        error_offsets_from(src, pos).len() == errors_from(src, pos).len(),
        forall|i: int|
            0 <= i < errors_from(src, pos).len() ==> error_in_place(
                src,
                #[trigger] errors_from(src, pos)[i],
                error_offsets_from(src, pos)[i],
                i == errors_from(src, pos).len() - 1,
            ),
    decreases src.len() - pos,
{
    if pos < src.len() {
        lemma_step_advances(src, pos);
        lemma_errors_from_in_place(src, step(src, pos).next);
    }
}

/// Errors. Each unexpected character gives one error where it stands, and
/// the scan goes on; an unclosed string or block comment gives one error at
/// the end of the source, after which nothing is left to scan.
pub proof fn lemma_errors_stand_in_place(src: Seq<char>)
    ensures
        error_offsets(src).len() == scan(src).errors.len(),
        forall|i: int|
            0 <= i < scan(src).errors.len() ==> error_in_place(
                src,
                #[trigger] scan(src).errors[i],
                error_offsets(src)[i],
                i == scan(src).errors.len() - 1,
            ),
{
    lemma_errors_from_in_place(src, 0);
}

/// The kinds of identifiers and keywords.
pub open spec fn is_word_kind(kind: TokenType) -> bool {
    match kind {
        TokenType::Identifier
        | TokenType::And
        | TokenType::Class
        | TokenType::Else
        | TokenType::False
        | TokenType::Fun
        | TokenType::For
        | TokenType::If
        | TokenType::Nil
        | TokenType::Or
        | TokenType::Print
        | TokenType::Return
        | TokenType::Super
        | TokenType::This
        | TokenType::True
        | TokenType::Var
        | TokenType::While => true,
        _ => false,
    }
}

/// A word that starts at offset `at` is whole: it begins with a character
/// that may begin a word, holds word characters only, ends where the source
/// ends or the next character is no word character, and is a keyword exactly
/// if it spells one.
pub open spec fn whole_word(src: Seq<char>, token: TokenView, at: int) -> bool {
    let end = at + token.lexeme.len();
    &&& token.lexeme.len() >= 1
    &&& starts_word(token.lexeme[0])
    &&& forall|k: int| 0 <= k < token.lexeme.len() ==> continues_word(#[trigger] token.lexeme[k])
    &&& end == src.len() || !continues_word(src[end])
    &&& token.kind == word_kind(token.lexeme)
}

/// A number that starts at offset `at` is whole: it begins with a digit, no
/// digit follows it, and a decimal point with a digit behind it follows only
/// a number that has a fraction already.
pub open spec fn whole_number(src: Seq<char>, token: TokenView, at: int) -> bool {
    let end = at + token.lexeme.len();
    &&& token.lexeme.len() >= 1
    &&& is_digit(token.lexeme[0])
    &&& end == src.len() || !is_digit(src[end])
    &&& token.literal matches LiteralView::Number(value) && (value.fraction.len() > 0
        || !has_fraction(src, end))
}

/// From `pos` on, every word and every number is whole.
proof fn lemma_tokens_from_whole(src: Seq<char>, pos: int)
    requires
        0 <= pos <= src.len(),
    ensures
        token_offsets_from(src, pos).len() == tokens_from(src, pos).len(),
        forall|i: int|
            0 <= i < tokens_from(src, pos).len() && is_word_kind(
                (#[trigger] tokens_from(src, pos)[i]).kind,
            ) ==> whole_word(src, tokens_from(src, pos)[i], token_offsets_from(src, pos)[i]),
        forall|i: int|
            0 <= i < tokens_from(src, pos).len() && (#[trigger] tokens_from(src, pos)[i]).kind
                == TokenType::Number ==> whole_number(
                src,
                tokens_from(src, pos)[i],
                token_offsets_from(src, pos)[i],
            ),
    decreases src.len() - pos,
{
    if pos < src.len() {
        lemma_step_advances(src, pos);
        lemma_tokens_from_whole(src, step(src, pos).next);
        match lead(src[pos]) {
            Lead::Digit => {
                lemma_run_end(src, pos, Run::Digits);
                let whole = run_end(src, pos, Run::Digits);
                if has_fraction(src, whole) {
                    lemma_run_end(src, whole + 1, Run::Digits);
                }
            },
            Lead::Word => {
                lemma_run_end(src, pos + 1, Run::Word);
            },
            _ => {},
        }
    }
}

/// Whole lexemes. An identifier or keyword is a longest run of word
/// characters, classified by what it spells; a number literal is a longest
/// run of digits, with a fraction wherever a point and a digit follow.
pub proof fn lemma_words_and_numbers_are_whole(src: Seq<char>)
    ensures
        token_offsets(src).len() == scan(src).tokens.len(),
        forall|i: int|
            0 <= i < scan(src).tokens.len() && is_word_kind((#[trigger] scan(src).tokens[i]).kind)
                ==> whole_word(src, scan(src).tokens[i], token_offsets(src)[i]),
        forall|i: int|
            0 <= i < scan(src).tokens.len() && (#[trigger] scan(src).tokens[i]).kind
                == TokenType::Number ==> whole_number(
                src,
                scan(src).tokens[i],
                token_offsets(src)[i],
            ),
{
    lemma_tokens_from_whole(src, 0);
}

} // verus!
