//! The executable scanner: a cursor over the characters of the source that
//! reads one lexeme at a time.

use crate::chars::{decimal_digit, decimal_value, is_digit};
use crate::error::{error_views, ErrorKind, ScanError, ScanErrorView};
use crate::grammar::{
    block_comment_step, comment_close, digit_values, errors_from, has_fraction, in_run,
    lemma_line_at_bounds, lemma_line_at_next, lemma_run_end, lemma_step_advances, line_at,
    number_step, run_end, scan, step, string_step, tokens_from, word_step, Run, Scan, Step,
};
use crate::token::token_type::TokenType;
use crate::token::{token_views, Decimal, Literal, LiteralView, Token, TokenView};
use vstd::prelude::*;
use vstd::string::*;

verus! {

/// What a scan hands back: the tokens in source order, ending with the
/// end-of-file token, and the errors in the order in which they were met.
#[derive(Debug, Clone, PartialEq, Eq)]
pub struct Scanned {
    pub tokens: Vec<Token>,
    pub errors: Vec<ScanError>,
}

impl View for Scanned {
    type V = Scan;

    open spec fn view(&self) -> Scan {
        Scan { tokens: token_views(self.tokens@), errors: error_views(self.errors@) }
    }
}

/// A scanner over one source text. It is made by `new`, used up by
/// `scan_tokens`, and holds nothing that outlives the scan.
pub struct Scanner {
    source: String,
    chars: Vec<char>,
    tokens: Vec<Token>,
    errors: Vec<ScanError>,
    /// Offset of the first character of the lexeme being read.
    start: usize,
    /// Line on which that character lies.
    start_line: u32,
    /// Offset of the next character to read.
    current: usize,
    /// Line on which that character lies.
    line: u32,
}

impl Scanner {
    /// The source text, as a sequence of characters.
    pub closed spec fn text(&self) -> Seq<char> {
        self.chars@
    }

    /// The cursor lies within the text and the line counters agree with it.
    spec fn inv(&self) -> bool {
        &&& self.source@ == self.chars@
        &&& self.chars@.len() < u32::MAX
        &&& self.start <= self.current <= self.chars@.len()
        &&& self.start_line == line_at(self.chars@, self.start as int)
        &&& self.line == line_at(self.chars@, self.current as int)
    }

    /// The scanner is as `new` made it: nothing has been scanned yet.
    pub closed spec fn fresh(&self) -> bool {
        &&& self.inv()
        &&& self.current == 0
        &&& self.tokens@.len() == 0
        &&& self.errors@.len() == 0
    }

    /// The tokens produced so far.
    spec fn emitted(&self) -> Seq<TokenView> {
        token_views(self.tokens@)
    }

    /// The errors met so far.
    spec fn reported(&self) -> Seq<ScanErrorView> {
        error_views(self.errors@)
    }

    /// `self` differs from `before` at most in where its cursor stands.
    spec fn moved_from(&self, before: &Scanner) -> bool {
        &&& self.source == before.source
        &&& self.chars == before.chars
        &&& self.tokens == before.tokens
        &&& self.errors == before.errors
        &&& self.start == before.start
        &&& self.start_line == before.start_line
    }

    /// `self` is `before` with its cursor where it was and `token` added to
    /// the tokens.
    spec fn emitted_after(&self, before: &Scanner, token: TokenView) -> bool {
        &&& self.source == before.source
        &&& self.chars == before.chars
        &&& self.errors == before.errors
        &&& self.start == before.start
        &&& self.start_line == before.start_line
        &&& self.current == before.current
        &&& self.line == before.line
        &&& self.emitted() == before.emitted().push(token)
    }

    /// `self` is `before` with its cursor where it was and `error` added to
    /// the errors.
    spec fn reported_after(&self, before: &Scanner, error: ScanErrorView) -> bool {
        &&& self.source == before.source
        &&& self.chars == before.chars
        &&& self.tokens == before.tokens
        &&& self.start == before.start
        &&& self.start_line == before.start_line
        &&& self.current == before.current
        &&& self.line == before.line
        &&& self.reported() == before.reported().push(error)
    }

    /// `self` is what `before` becomes by the step `s`, taken from where the
    /// lexeme of `before` starts.
    spec fn follows(&self, before: &Scanner, s: Step) -> bool {
        &&& self.inv()
        &&& self.source == before.source
        &&& self.chars == before.chars
        &&& self.current == s.next
        &&& self.emitted() == match s.token {
            Some(token) => before.emitted().push(token),
            None => before.emitted(),
        }
        &&& self.reported() == match s.error {
            Some(error) => before.reported().push(error),
            None => before.reported(),
        }
    }

    /// Makes a scanner for `source`. Line numbers are 32-bit, so the source
    /// must have fewer than `u32::MAX` characters.
    pub fn new(source: &String) -> (scanner: Scanner)
        requires
            source@.len() < u32::MAX,
        ensures
            scanner.fresh(),
            scanner.text() == source@,
    {
        let mut chars: Vec<char> = Vec::new();
        for c in it: source.as_str().chars()
            invariant
                chars@ == it.seq().take(it.index() as int),
        {
            chars.push(c);
        }
        assert(chars@ == source@);
        proof {
            lemma_line_at_bounds(chars@, 0);
        }
        Scanner {
            source: source.clone(),
            chars,
            tokens: Vec::new(),
            errors: Vec::new(),
            start: 0,
            start_line: 1,
            current: 0,
            line: 1,
        }
    }

    /// Whether every character has been read.
    fn is_at_end(&self) -> (end: bool)
        ensures
            end == (self.current >= self.chars@.len()),
    {
        self.current >= self.chars.len()
    }

    /// The next character, if any, without reading it.
    fn peek(&self) -> (next: Option<char>)
        ensures
            next == if self.current < self.chars@.len() {
                Some(self.chars@[self.current as int])
            } else {
                None
            },
    {
        if self.current < self.chars.len() {
            Some(self.chars[self.current])
        } else {
            None
        }
    }

    /// The character after the next, if any, without reading anything.
    fn peek_next(&self) -> (next: Option<char>)
        ensures
            next == if self.current + 1 < self.chars@.len() {
                Some(self.chars@[self.current + 1])
            } else {
                None
            },
    {
        if self.current < self.chars.len() && self.current + 1 < self.chars.len() {
            Some(self.chars[self.current + 1])
        } else {
            None
        }
    }

    /// Reads the next character, if any, and counts the line feed it may be.
    fn advance(&mut self) -> (next: Option<char>)
        requires
            old(self).inv(),
        ensures
            final(self).inv(),
            final(self).moved_from(old(self)),
            old(self).current < old(self).chars@.len() ==> next == Some(
                old(self).chars@[old(self).current as int],
            ) && final(self).current == old(self).current + 1,
            old(self).current >= old(self).chars@.len() ==> next is None && final(self).current
                == old(self).current,
    {
        if self.current < self.chars.len() {
            let c = self.chars[self.current];
            proof {
                lemma_line_at_next(self.chars@, self.current as int);
                lemma_line_at_bounds(self.chars@, self.current as int + 1);
            }
            if c == '\n' {
                self.line = self.line + 1;
            }
            self.current = self.current + 1;
            Some(c)
        } else {
            None
        }
    }

    /// Reads the next character if it is `expected`, and says whether it did.
    fn match_char(&mut self, expected: char) -> (matched: bool)
        requires
            old(self).inv(),
        ensures
            final(self).inv(),
            final(self).moved_from(old(self)),
            matched == (old(self).current < old(self).chars@.len() && old(self).chars@[old(
                self,
            ).current as int] == expected),
            final(self).current == if matched {
                old(self).current + 1
            } else {
                old(self).current as int
            },
    {
        match self.peek() {
            Some(c) => {
                if c == expected {
                    self.advance();
                    true
                } else {
                    false
                }
            },
            None => false,
        }
    }

    /// Reads on to the end of the longest run of the given kind.
    fn skip_run(&mut self, run: Run)
        requires
            old(self).inv(),
        ensures
            final(self).inv(),
            final(self).moved_from(old(self)),
            final(self).current == run_end(old(self).chars@, old(self).current as int, run),
    {
        loop
            invariant
                self.inv(),
                self.moved_from(old(self)),
                run_end(self.chars@, self.current as int, run) == run_end(
                    old(self).chars@,
                    old(self).current as int,
                    run,
                ),
            ensures
                self.current == run_end(old(self).chars@, old(self).current as int, run),
            decreases self.chars@.len() - self.current,
        {
            match self.peek() {
                Some(c) => {
                    if belongs(run, c) {
                        self.advance();
                    } else {
                        break ;
                    }
                },
                None => {
                    break ;
                },
            }
        }
    }

    /// The source text from offset `from` to offset `to`, counted in
    /// characters.
    fn lexeme(&self, from: usize, to: usize) -> (text: String)
        requires
            self.inv(),
            from <= to <= self.chars@.len(),
        ensures
            text@ == self.chars@.subrange(from as int, to as int),
    {
        self.source.as_str().substring_char(from, to).to_owned()
    }

    /// Adds a token of the given kind and literal whose lexeme is the source
    /// text from `start` to `end`, on the line on which the current lexeme
    /// starts.
    fn add_token_with_literal(&mut self, kind: TokenType, start: usize, end: usize, literal: Literal)
        requires
            old(self).inv(),
            start <= end <= old(self).chars@.len(),
        ensures
            final(self).inv(),
            final(self).emitted_after(
                old(self),
                TokenView {
                    kind,
                    lexeme: old(self).chars@.subrange(start as int, end as int),
                    literal: literal@,
                    line: old(self).start_line as nat,
                },
            ),
    {
        let text = self.lexeme(start, end);
        let token = Token::new(kind, text, literal, self.start_line);
        proof {
            self.tokens@.lemma_push_map_commute(|t: Token| t@, token);
        }
        self.tokens.push(token);
    }

    /// Adds a token without a literal whose lexeme is the source text from
    /// `start` to `end`.
    fn add_token_with_index_control(&mut self, kind: TokenType, start: usize, end: usize)
        requires
            old(self).inv(),
            start <= end <= old(self).chars@.len(),
        ensures
            final(self).inv(),
            final(self).emitted_after(
                old(self),
                TokenView {
                    kind,
                    lexeme: old(self).chars@.subrange(start as int, end as int),
                    literal: LiteralView::Absent,
                    line: old(self).start_line as nat,
                },
            ),
    {
        self.add_token_with_literal(kind, start, end, Literal::Absent);
    }

    /// Adds a token without a literal whose lexeme is the text read since the
    /// lexeme started.
    fn add_token(&mut self, kind: TokenType)
        requires
            old(self).inv(),
        ensures
            final(self).inv(),
            final(self).emitted_after(
                old(self),
                TokenView {
                    kind,
                    lexeme: old(self).chars@.subrange(
                        old(self).start as int,
                        old(self).current as int,
                    ),
                    literal: LiteralView::Absent,
                    line: old(self).start_line as nat,
                },
            ),
    {
        self.add_token_with_index_control(kind, self.start, self.current);
    }

    /// Scans the whole source: the tokens in source order, closed by the
    /// end-of-file token, and the errors in the order in which they were met.
    /// An error never stops the scan.
    pub fn scan_tokens(self) -> (scanned: Scanned)
        requires
            self.fresh(),
        ensures
            scanned@ == scan(self.text()),
            scanned.tokens@.len() >= 1,
            scanned.tokens@.last().kind == TokenType::Eof,
            scanned.tokens@.last().lexeme@.len() == 0,
    {
        let mut scanner = self;
        while !scanner.is_at_end()
            invariant
                scanner.inv(),
                scanner.chars == self.chars,
                scanner.emitted() + tokens_from(self.chars@, scanner.current as int)
                    == tokens_from(self.chars@, 0),
                scanner.reported() + errors_from(self.chars@, scanner.current as int)
                    == errors_from(self.chars@, 0),
            decreases scanner.chars@.len() - scanner.current,
        {
            // We are at the beginning of the next lexeme.
            scanner.start = scanner.current;
            scanner.start_line = scanner.line;
            let ghost before = scanner;
            scanner.scan_token();
            proof {
                let s = step(self.chars@, before.current as int);
                lemma_step_advances(self.chars@, before.current as int);
                let rest = tokens_from(self.chars@, s.next);
                if let Some(token) = s.token {
                    assert(before.emitted().push(token) + rest == before.emitted() + (seq![token]
                        + rest));
                }
                let later = errors_from(self.chars@, s.next);
                if let Some(error) = s.error {
                    assert(before.reported().push(error) + later == before.reported() + (
                    seq![error] + later));
                }
            }
        }
        scanner.start = scanner.current;
        scanner.start_line = scanner.line;
        scanner.add_token(TokenType::Eof);
        proof {
            assert(self.chars@.subrange(scanner.current as int, scanner.current as int)
                =~= Seq::<char>::empty());
            let views = token_views(scanner.tokens@);
            assert(views.len() == scanner.tokens@.len());
            assert(views.last() == scanner.tokens@.last()@);
        }
        Scanned { tokens: scanner.tokens, errors: scanner.errors }
    }

    /// Scans the lexeme, comment or blank that starts at the cursor.
    fn scan_token(&mut self)
        requires
            old(self).inv(),
            old(self).start == old(self).current,
            old(self).current < old(self).chars@.len(),
        ensures
            final(self).follows(old(self), step(old(self).chars@, old(self).start as int)),
    {
        let c = self.advance();
        match c {
            // Single character tokens
            Some(',') => self.add_token(TokenType::Comma),
            Some('.') => self.add_token(TokenType::Dot),
            Some('-') => self.add_token(TokenType::Minus),
            Some('+') => self.add_token(TokenType::Plus),
            Some(';') => self.add_token(TokenType::Semicolon),
            Some('*') => self.add_token(TokenType::Star),
            Some('(') => self.add_token(TokenType::LeftParen),
            Some(')') => self.add_token(TokenType::RightParen),
            Some('{') => self.add_token(TokenType::LeftBrace),
            Some('}') => self.add_token(TokenType::RightBrace),
            // operators
            Some('!') => {
                let kind = if self.match_char('=') {
                    TokenType::BangEqual
                } else {
                    TokenType::Bang
                };
                self.add_token(kind);
            },
            Some('=') => {
                let kind = if self.match_char('=') {
                    TokenType::EqualEqual
                } else {
                    TokenType::Equal
                };
                self.add_token(kind);
            },
            Some('<') => {
                let kind = if self.match_char('=') {
                    TokenType::LessEqual
                } else {
                    TokenType::Less
                };
                self.add_token(kind);
            },
            Some('>') => {
                let kind = if self.match_char('=') {
                    TokenType::GreaterEqual
                } else {
                    TokenType::Greater
                };
                self.add_token(kind);
            },
            Some('/') => {
                if self.match_char('/') {
                    // A comment goes until the end of the line
                    self.skip_run(Run::LineComment);
                } else if self.match_char('*') {
                    self.block_comment();
                } else {
                    self.add_token(TokenType::Slash);
                }
            },
            Some('"') => {
                self.string();
            },
            Some(x) => {
                if x.is_whitespace() || x == '\n' {
                    // Ignore whitespace; the line feed was counted when it was read.
                } else if decimal_digit(x) {
                    self.digit();
                } else if x == '_' || x.is_alphabetic() {
                    self.identifier();
                } else {
                    self.report(self.start_line, ErrorKind::UnexpectedCharacter);
                }
            },
            None => {},
        }
    }

    /// Reads a string literal whose opening quote has just been read.
    fn string(&mut self)
        requires
            old(self).inv(),
            old(self).current == old(self).start + 1,
            old(self).chars@[old(self).start as int] == '"',
        ensures
            final(self).follows(old(self), string_step(old(self).chars@, old(self).start as int)),
    {
        self.skip_run(Run::StringBody);
        proof {
            lemma_run_end(self.chars@, self.start as int + 1, Run::StringBody);
        }
        match self.advance() {
            Some(_) => {
                self.add_token_with_literal(
                    TokenType::String,
                    self.start + 1,
                    self.current - 1,
                    Literal::String(self.lexeme(self.start + 1, self.current - 1)),
                );
            },
            None => {
                self.report(self.line, ErrorKind::UnterminatedString);
            },
        }
    }

    /// Reads a block comment whose opening `/*` has just been read. Comments
    /// nest: the comment ends where as many `*/` as `/*` have been read.
    fn block_comment(&mut self)
        requires
            old(self).inv(),
            old(self).current == old(self).start + 2,
        ensures
            final(self).follows(
                old(self),
                block_comment_step(old(self).chars@, old(self).start as int),
            ),
    {
        let mut nested_count: usize = 1;
        while nested_count > 0
            invariant
                self.inv(),
                self.moved_from(old(self)),
                nested_count <= self.current,
                comment_close(self.chars@, self.current as int, nested_count as nat)
                    == comment_close(old(self).chars@, old(self).start + 2, 1),
            decreases self.chars@.len() - self.current,
        {
            match self.advance() {
                Some('*') => {
                    if self.match_char('/') {
                        nested_count = nested_count - 1;
                    }
                },
                Some('/') => {
                    if self.match_char('*') {
                        nested_count = nested_count + 1;
                    }
                },
                Some(_) => {},
                None => {
                    self.report(self.line, ErrorKind::UnterminatedBlockComment);
                    return ;
                },
            }
        }
    }

    /// The values of the digits that stand from offset `from` to offset `to`.
    fn digits(&self, from: usize, to: usize) -> (values: Vec<u8>)
        requires
            self.inv(),
            from <= to <= self.chars@.len(),
            forall|i: int| from <= i < to ==> is_digit(#[trigger] self.chars@[i]),
        ensures
            values@ == digit_values(self.chars@.subrange(from as int, to as int)),
    {
        let mut values: Vec<u8> = Vec::new();
        let mut i: usize = from;
        while i < to
            invariant
                from <= i <= to <= self.chars@.len(),
                forall|k: int| from <= k < to ==> is_digit(#[trigger] self.chars@[k]),
                values@ == digit_values(self.chars@.subrange(from as int, i as int)),
            decreases to - i,
        {
            values.push(decimal_value(self.chars[i]));
            i = i + 1;
        }
        values
    }

    /// Reads a number literal whose first digit has just been read. A decimal
    /// point is part of the literal only if a digit follows it.
    fn digit(&mut self)
        requires
            old(self).inv(),
            old(self).current == old(self).start + 1,
            is_digit(old(self).chars@[old(self).start as int]),
        ensures
            final(self).follows(old(self), number_step(old(self).chars@, old(self).start as int)),
    {
        self.skip_run(Run::Digits);
        let point = self.current;
        proof {
            lemma_run_end(self.chars@, self.start as int, Run::Digits);
        }
        let decimal_found = match (self.peek(), self.peek_next()) {
            (Some('.'), Some(y)) => decimal_digit(y),
            _ => false,
        };
        assert(decimal_found == has_fraction(self.chars@, point as int));
        let mut fraction: Vec<u8> = Vec::new();
        if decimal_found {
            self.advance();
            self.skip_run(Run::Digits);
            proof {
                lemma_run_end(self.chars@, point as int + 1, Run::Digits);
            }
            fraction = self.digits(point + 1, self.current);
        }
        let whole = self.digits(self.start, point);
        self.add_token_with_literal(
            TokenType::Number,
            self.start,
            self.current,
            Literal::Number(Decimal { whole, fraction }),
        );
    }

    /// Whether the text read since the lexeme started spells `word`.
    fn spells(&self, word: &str) -> (same: bool)
        requires
            self.inv(),
        ensures
            same == (self.chars@.subrange(self.start as int, self.current as int) == word@),
    {
        let len = self.current - self.start;
        if word.unicode_len() != len {
            return false;
        }
        let mut i: usize = 0;
        while i < len
            invariant
                self.inv(),
                len == self.current - self.start,
                len == word@.len(),
                i <= len,
                forall|k: int| 0 <= k < i ==> self.chars@[self.start + k] == word@[k],
            decreases len - i,
        {
            if self.chars[self.start + i] != word.get_char(i) {
                assert(self.chars@.subrange(self.start as int, self.current as int)[i as int]
                    != word@[i as int]);
                return false;
            }
            i = i + 1;
        }
        assert(self.chars@.subrange(self.start as int, self.current as int) =~= word@);
        true
    }

    /// Reads an identifier or keyword whose first character has just been
    /// read, and classifies it.
    fn identifier(&mut self)
        requires
            old(self).inv(),
            old(self).current == old(self).start + 1,
        ensures
            final(self).follows(old(self), word_step(old(self).chars@, old(self).start as int)),
    {
        self.skip_run(Run::Word);
        proof {
            lemma_run_end(self.chars@, self.start as int + 1, Run::Word);
        }
        let token_type = if self.spells("and") {
            TokenType::And
        } else if self.spells("class") {
            TokenType::Class
        } else if self.spells("else") {
            TokenType::Else
        } else if self.spells("false") {
            TokenType::False
        } else if self.spells("for") {
            TokenType::For
        } else if self.spells("fun") {
            TokenType::Fun
        } else if self.spells("if") {
            TokenType::If
        } else if self.spells("nil") {
            TokenType::Nil
        } else if self.spells("or") {
            TokenType::Or
        } else if self.spells("print") {
            TokenType::Print
        } else if self.spells("return") {
            TokenType::Return
        } else if self.spells("super") {
            TokenType::Super
        } else if self.spells("this") {
            TokenType::This
        } else if self.spells("true") {
            TokenType::True
        } else if self.spells("var") {
            TokenType::Var
        } else if self.spells("while") {
            TokenType::While
        } else {
            TokenType::Identifier
        };
        self.add_token(token_type);
    }

    /// Records an error of the given kind on the given line.
    fn report(&mut self, line: u32, kind: ErrorKind)
        requires
            old(self).inv(),
        ensures
            final(self).inv(),
            final(self).reported_after(old(self), ScanErrorView { line: line as nat, kind }),
    {
        let error = ScanError { line, kind };
        proof {
            self.errors@.lemma_push_map_commute(|e: ScanError| e@, error);
        }
        self.errors.push(error);
    }
}

/// Tests whether the character `c` belongs to a run of the given kind.
fn belongs(run: Run, c: char) -> (b: bool)
    ensures
        b == in_run(run, c),
{
    match run {
        Run::Digits => decimal_digit(c),
        Run::Word => c.is_alphanumeric() || c == '_',
        Run::LineComment => c != '\n',
        Run::StringBody => c != '"',
    }
}

} // verus!
