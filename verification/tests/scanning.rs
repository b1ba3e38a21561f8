use rlox::error::{ErrorKind, ScanError};
use rlox::scanner::{Scanned, Scanner};
use rlox::token::token_type::TokenType;
use rlox::token::{Decimal, Literal, Token};

fn scan(source: &str) -> Scanned {
    Scanner::new(&source.to_string()).scan_tokens()
}

fn kinds(scanned: &Scanned) -> Vec<TokenType> {
    scanned.tokens.iter().map(|token| token.kind).collect()
}

fn lexemes(scanned: &Scanned) -> Vec<String> {
    scanned.tokens.iter().map(|token| token.lexeme.clone()).collect()
}

fn lines(scanned: &Scanned) -> Vec<u32> {
    scanned.tokens.iter().map(|token| token.line).collect()
}

fn number(whole: &[u8], fraction: &[u8]) -> Literal {
    Literal::Number(Decimal { whole: whole.to_vec(), fraction: fraction.to_vec() })
}

fn value(literal: &Literal) -> f64 {
    match literal {
        Literal::Number(decimal) => {
            let mut text = String::new();
            for digit in &decimal.whole {
                text.push((b'0' + digit) as char);
            }
            if !decimal.fraction.is_empty() {
                text.push('.');
                for digit in &decimal.fraction {
                    text.push((b'0' + digit) as char);
                }
            }
            text.parse::<f64>().unwrap()
        }
        _ => panic!("not a number literal"),
    }
}

#[test]
fn empty_source_yields_only_eof() {
    let scanned = scan("");
    assert_eq!(scanned.tokens.len(), 1);
    assert_eq!(scanned.tokens[0], Token::new(TokenType::Eof, String::new(), Literal::Absent, 1));
    assert!(scanned.errors.is_empty());
}

#[test]
fn every_scan_ends_with_one_eof() {
    for source in ["", "   ", "var x = 1;", "@ # $", "\"open", "/* open", "a\nb\n", "// c"] {
        let scanned = scan(source);
        let last = scanned.tokens.last().unwrap();
        assert_eq!(last.kind, TokenType::Eof);
        assert_eq!(last.lexeme, "");
        assert_eq!(last.literal, Literal::Absent);
        let count = scanned.tokens.iter().filter(|t| t.kind == TokenType::Eof).count();
        assert_eq!(count, 1);
    }
}

#[test]
fn punctuation_comes_out_in_source_order() {
    let scanned = scan("( ) { } , . - + ; * /");
    assert_eq!(
        kinds(&scanned),
        vec![
            TokenType::LeftParen,
            TokenType::RightParen,
            TokenType::LeftBrace,
            TokenType::RightBrace,
            TokenType::Comma,
            TokenType::Dot,
            TokenType::Minus,
            TokenType::Plus,
            TokenType::Semicolon,
            TokenType::Star,
            TokenType::Slash,
            TokenType::Eof,
        ]
    );
    assert_eq!(lexemes(&scanned), vec!["(", ")", "{", "}", ",", ".", "-", "+", ";", "*", "/", ""]);
    assert!(scanned.errors.is_empty());
}

#[test]
fn punctuation_needs_no_separator() {
    let scanned = scan("(){},.-+;*");
    assert_eq!(
        kinds(&scanned),
        vec![
            TokenType::LeftParen,
            TokenType::RightParen,
            TokenType::LeftBrace,
            TokenType::RightBrace,
            TokenType::Comma,
            TokenType::Dot,
            TokenType::Minus,
            TokenType::Plus,
            TokenType::Semicolon,
            TokenType::Star,
            TokenType::Eof,
        ]
    );
    assert!(scanned.errors.is_empty());
}

#[test]
fn bang_equal_is_one_token() {
    let scanned = scan("!=");
    assert_eq!(kinds(&scanned), vec![TokenType::BangEqual, TokenType::Eof]);
    assert_eq!(scanned.tokens[0].lexeme, "!=");
    assert_eq!(scanned.tokens[0].literal, Literal::Absent);
    assert!(scanned.errors.is_empty());
}

#[test]
fn bang_alone_is_bang() {
    let scanned = scan("!");
    assert_eq!(kinds(&scanned), vec![TokenType::Bang, TokenType::Eof]);
    assert_eq!(scanned.tokens[0].lexeme, "!");
    assert!(scanned.errors.is_empty());
}

#[test]
fn operators_of_one_and_two_characters() {
    let scanned = scan("! != = == < <= > >=");
    assert_eq!(
        kinds(&scanned),
        vec![
            TokenType::Bang,
            TokenType::BangEqual,
            TokenType::Equal,
            TokenType::EqualEqual,
            TokenType::Less,
            TokenType::LessEqual,
            TokenType::Greater,
            TokenType::GreaterEqual,
            TokenType::Eof,
        ]
    );
    assert_eq!(lexemes(&scanned), vec!["!", "!=", "=", "==", "<", "<=", ">", ">=", ""]);
}

#[test]
fn operators_take_the_longest_match() {
    let scanned = scan("!===<==>=!");
    assert_eq!(
        kinds(&scanned),
        vec![
            TokenType::BangEqual,
            TokenType::EqualEqual,
            TokenType::LessEqual,
            TokenType::Equal,
            TokenType::GreaterEqual,
            TokenType::Bang,
            TokenType::Eof,
        ]
    );
}

#[test]
fn slash_alone_is_a_token() {
    let scanned = scan("a / b");
    assert_eq!(
        kinds(&scanned),
        vec![TokenType::Identifier, TokenType::Slash, TokenType::Identifier, TokenType::Eof]
    );
    let scanned = scan("/");
    assert_eq!(kinds(&scanned), vec![TokenType::Slash, TokenType::Eof]);
}

#[test]
fn line_comment_runs_to_the_line_feed() {
    let scanned = scan("+ // - * (\n;");
    assert_eq!(kinds(&scanned), vec![TokenType::Plus, TokenType::Semicolon, TokenType::Eof]);
    assert_eq!(lines(&scanned), vec![1, 2, 2]);
    assert!(scanned.errors.is_empty());
}

#[test]
fn line_comment_may_end_the_source() {
    let scanned = scan("+ // no line feed");
    assert_eq!(kinds(&scanned), vec![TokenType::Plus, TokenType::Eof]);
    assert_eq!(lines(&scanned), vec![1, 1]);
    let scanned = scan("//");
    assert_eq!(kinds(&scanned), vec![TokenType::Eof]);
    assert!(scanned.errors.is_empty());
}

#[test]
fn nested_block_comment_yields_nothing() {
    let scanned = scan("/* a /* b */ c */");
    assert_eq!(kinds(&scanned), vec![TokenType::Eof]);
    assert!(scanned.errors.is_empty());
}

#[test]
fn unterminated_block_comment_is_one_error() {
    let scanned = scan("/* unterminated");
    assert_eq!(kinds(&scanned), vec![TokenType::Eof]);
    assert_eq!(
        scanned.errors,
        vec![ScanError { line: 1, kind: ErrorKind::UnterminatedBlockComment }]
    );
}

#[test]
fn block_comment_ends_where_nesting_closes() {
    let scanned = scan("/**/+/* /* */ - */;/* * / */.");
    assert_eq!(
        kinds(&scanned),
        vec![TokenType::Plus, TokenType::Semicolon, TokenType::Dot, TokenType::Eof]
    );
    assert!(scanned.errors.is_empty());
}

#[test]
fn block_comment_delimiters_do_not_overlap() {
    // The `/` that closes `*/` cannot also open `/*`, nor the `*` of `/*` close.
    let scanned = scan("/*/");
    assert_eq!(kinds(&scanned), vec![TokenType::Eof]);
    assert_eq!(
        scanned.errors,
        vec![ScanError { line: 1, kind: ErrorKind::UnterminatedBlockComment }]
    );
    let scanned = scan("/* /* */");
    assert_eq!(
        scanned.errors,
        vec![ScanError { line: 1, kind: ErrorKind::UnterminatedBlockComment }]
    );
    let scanned = scan("/* */ */");
    assert_eq!(kinds(&scanned), vec![TokenType::Star, TokenType::Slash, TokenType::Eof]);
    assert!(scanned.errors.is_empty());
}

#[test]
fn block_comment_counts_its_line_feeds() {
    let scanned = scan("/* one\n two\n three */ x");
    assert_eq!(kinds(&scanned), vec![TokenType::Identifier, TokenType::Eof]);
    assert_eq!(lines(&scanned), vec![3, 3]);
    let scanned = scan("/* one\n two\n");
    assert_eq!(
        scanned.errors,
        vec![ScanError { line: 3, kind: ErrorKind::UnterminatedBlockComment }]
    );
    assert_eq!(lines(&scanned), vec![3]);
}

#[test]
fn string_literal_loses_its_quotes() {
    let scanned = scan("\"hello\"");
    assert_eq!(kinds(&scanned), vec![TokenType::String, TokenType::Eof]);
    assert_eq!(scanned.tokens[0].lexeme, "hello");
    assert_eq!(scanned.tokens[0].literal, Literal::String("hello".to_string()));
    assert_eq!(scanned.tokens[0].line, 1);
    assert!(scanned.errors.is_empty());
}

#[test]
fn unterminated_string_is_one_error() {
    let scanned = scan("\"no close");
    assert_eq!(kinds(&scanned), vec![TokenType::Eof]);
    assert_eq!(scanned.errors, vec![ScanError { line: 1, kind: ErrorKind::UnterminatedString }]);
}

#[test]
fn empty_string_literal() {
    let scanned = scan("\"\"");
    assert_eq!(kinds(&scanned), vec![TokenType::String, TokenType::Eof]);
    assert_eq!(scanned.tokens[0].lexeme, "");
    assert_eq!(scanned.tokens[0].literal, Literal::String(String::new()));
}

#[test]
fn string_holds_anything_but_a_quote() {
    let scanned = scan("\"a // b /* c @ 1.5\" +");
    assert_eq!(kinds(&scanned), vec![TokenType::String, TokenType::Plus, TokenType::Eof]);
    assert_eq!(scanned.tokens[0].lexeme, "a // b /* c @ 1.5");
    assert!(scanned.errors.is_empty());
}

#[test]
fn string_over_several_lines_starts_on_its_first() {
    let scanned = scan("\n\"one\ntwo\" x\ny");
    assert_eq!(
        kinds(&scanned),
        vec![TokenType::String, TokenType::Identifier, TokenType::Identifier, TokenType::Eof]
    );
    assert_eq!(scanned.tokens[0].lexeme, "one\ntwo");
    assert_eq!(lines(&scanned), vec![2, 3, 4, 4]);
}

#[test]
fn unterminated_string_is_reported_where_the_source_ends() {
    let scanned = scan("x\n\"one\ntwo\n");
    assert_eq!(kinds(&scanned), vec![TokenType::Identifier, TokenType::Eof]);
    assert_eq!(scanned.errors, vec![ScanError { line: 4, kind: ErrorKind::UnterminatedString }]);
    assert_eq!(lines(&scanned), vec![1, 4]);
}

#[test]
fn number_with_fraction() {
    let scanned = scan("123.45");
    assert_eq!(kinds(&scanned), vec![TokenType::Number, TokenType::Eof]);
    assert_eq!(scanned.tokens[0].lexeme, "123.45");
    assert_eq!(scanned.tokens[0].literal, number(&[1, 2, 3], &[4, 5]));
    assert_eq!(value(&scanned.tokens[0].literal), 123.45);
    assert_eq!(scanned.tokens[0].lexeme.parse::<f64>().unwrap(), 123.45);
    assert!(scanned.errors.is_empty());
}

#[test]
fn number_leaves_a_trailing_point() {
    let scanned = scan("123.");
    assert_eq!(kinds(&scanned), vec![TokenType::Number, TokenType::Dot, TokenType::Eof]);
    assert_eq!(lexemes(&scanned), vec!["123", ".", ""]);
    assert_eq!(scanned.tokens[0].literal, number(&[1, 2, 3], &[]));
    assert_eq!(value(&scanned.tokens[0].literal), 123.0);
    assert_eq!(scanned.tokens[1].literal, Literal::Absent);
}

#[test]
fn number_takes_one_point_only() {
    let scanned = scan("1.2.3");
    assert_eq!(
        kinds(&scanned),
        vec![TokenType::Number, TokenType::Dot, TokenType::Number, TokenType::Eof]
    );
    assert_eq!(lexemes(&scanned), vec!["1.2", ".", "3", ""]);
    assert_eq!(scanned.tokens[0].literal, number(&[1], &[2]));
    assert_eq!(scanned.tokens[2].literal, number(&[3], &[]));
}

#[test]
fn number_point_needs_a_digit_behind_it() {
    let scanned = scan("12.foo");
    assert_eq!(
        kinds(&scanned),
        vec![TokenType::Number, TokenType::Dot, TokenType::Identifier, TokenType::Eof]
    );
    let scanned = scan(".5");
    assert_eq!(kinds(&scanned), vec![TokenType::Dot, TokenType::Number, TokenType::Eof]);
}

#[test]
fn number_keeps_every_digit() {
    let scanned = scan("007.50");
    assert_eq!(scanned.tokens[0].literal, number(&[0, 0, 7], &[5, 0]));
    assert_eq!(value(&scanned.tokens[0].literal), 7.5);
    let scanned = scan("0");
    assert_eq!(scanned.tokens[0].literal, number(&[0], &[]));
    let scanned = scan("1234567890.0987654321");
    assert_eq!(
        scanned.tokens[0].literal,
        number(&[1, 2, 3, 4, 5, 6, 7, 8, 9, 0], &[0, 9, 8, 7, 6, 5, 4, 3, 2, 1])
    );
    assert_eq!(value(&scanned.tokens[0].literal), 1234567890.0987654321);
}

#[test]
fn number_of_any_length() {
    let digits = "9".repeat(400);
    let scanned = scan(&digits);
    assert_eq!(kinds(&scanned), vec![TokenType::Number, TokenType::Eof]);
    assert_eq!(scanned.tokens[0].lexeme, digits);
    assert_eq!(scanned.tokens[0].literal, number(&[9; 400], &[]));
    assert_eq!(value(&scanned.tokens[0].literal), f64::INFINITY);
}

#[test]
fn number_ends_where_a_word_begins() {
    let scanned = scan("12ab 3_");
    assert_eq!(
        kinds(&scanned),
        vec![
            TokenType::Number,
            TokenType::Identifier,
            TokenType::Number,
            TokenType::Identifier,
            TokenType::Eof,
        ]
    );
    assert_eq!(lexemes(&scanned), vec!["12", "ab", "3", "_", ""]);
}

#[test]
fn keyword_and_identifier() {
    let scanned = scan("for forest");
    assert_eq!(kinds(&scanned), vec![TokenType::For, TokenType::Identifier, TokenType::Eof]);
    assert_eq!(lexemes(&scanned), vec!["for", "forest", ""]);
    assert_eq!(scanned.tokens[0].literal, Literal::Absent);
    assert_eq!(scanned.tokens[1].literal, Literal::Absent);
}

#[test]
fn every_keyword_has_its_kind() {
    let scanned = scan(
        "and class else false for fun if nil or print return super this true var while",
    );
    assert_eq!(
        kinds(&scanned),
        vec![
            TokenType::And,
            TokenType::Class,
            TokenType::Else,
            TokenType::False,
            TokenType::For,
            TokenType::Fun,
            TokenType::If,
            TokenType::Nil,
            TokenType::Or,
            TokenType::Print,
            TokenType::Return,
            TokenType::Super,
            TokenType::This,
            TokenType::True,
            TokenType::Var,
            TokenType::While,
            TokenType::Eof,
        ]
    );
    assert!(scanned.errors.is_empty());
}

#[test]
fn keywords_are_case_sensitive_and_whole_words() {
    let scanned = scan("For AND nil_ _if classy or1 i");
    assert_eq!(
        kinds(&scanned),
        vec![
            TokenType::Identifier,
            TokenType::Identifier,
            TokenType::Identifier,
            TokenType::Identifier,
            TokenType::Identifier,
            TokenType::Identifier,
            TokenType::Identifier,
            TokenType::Eof,
        ]
    );
    assert_eq!(lexemes(&scanned), vec!["For", "AND", "nil_", "_if", "classy", "or1", "i", ""]);
}

#[test]
fn identifier_may_hold_digits_and_underscores() {
    let scanned = scan("_ _a1 a_b_2 __");
    assert_eq!(
        kinds(&scanned),
        vec![
            TokenType::Identifier,
            TokenType::Identifier,
            TokenType::Identifier,
            TokenType::Identifier,
            TokenType::Eof,
        ]
    );
    assert_eq!(lexemes(&scanned), vec!["_", "_a1", "a_b_2", "__", ""]);
}

#[test]
fn identifier_of_letters_beyond_ascii() {
    let scanned = scan("été = 京都²;");
    assert_eq!(
        kinds(&scanned),
        vec![
            TokenType::Identifier,
            TokenType::Equal,
            TokenType::Identifier,
            TokenType::Semicolon,
            TokenType::Eof,
        ]
    );
    assert_eq!(lexemes(&scanned), vec!["été", "=", "京都²", ";", ""]);
    assert!(scanned.errors.is_empty());
}

#[test]
fn numeric_character_cannot_begin_an_identifier() {
    // `²` is numeric, not alphabetic, and no decimal digit.
    let scanned = scan("²");
    assert_eq!(kinds(&scanned), vec![TokenType::Eof]);
    assert_eq!(scanned.errors, vec![ScanError { line: 1, kind: ErrorKind::UnexpectedCharacter }]);
}

#[test]
fn lexemes_are_cut_by_characters_not_bytes() {
    let scanned = scan("\"日本語\" => \"ß\" é1.5");
    assert_eq!(
        lexemes(&scanned),
        vec!["日本語", "=", ">", "ß", "é1", ".", "5", ""]
    );
    assert_eq!(scanned.tokens[0].literal, Literal::String("日本語".to_string()));
}

#[test]
fn white_space_yields_nothing() {
    let scanned = scan(" \t\r\n\u{a0}\u{2003}\u{3000}");
    assert_eq!(kinds(&scanned), vec![TokenType::Eof]);
    assert_eq!(lines(&scanned), vec![2]);
    assert!(scanned.errors.is_empty());
}

#[test]
fn unicode_white_space_separates_tokens() {
    let scanned = scan("a\u{a0}b\u{2028}c");
    assert_eq!(lexemes(&scanned), vec!["a", "b", "c", ""]);
    assert_eq!(lines(&scanned), vec![1, 1, 1, 1]);
    assert!(scanned.errors.is_empty());
}

#[test]
fn lines_count_the_line_feeds_before() {
    let scanned = scan("a\nb\n\nc @\n\n\n#");
    assert_eq!(
        kinds(&scanned),
        vec![TokenType::Identifier, TokenType::Identifier, TokenType::Identifier, TokenType::Eof]
    );
    assert_eq!(lines(&scanned), vec![1, 2, 4, 7]);
    assert_eq!(
        scanned.errors,
        vec![
            ScanError { line: 4, kind: ErrorKind::UnexpectedCharacter },
            ScanError { line: 7, kind: ErrorKind::UnexpectedCharacter },
        ]
    );
}

#[test]
fn carriage_return_is_no_line_feed() {
    let scanned = scan("a\r\nb\rc");
    assert_eq!(lines(&scanned), vec![1, 2, 2, 2]);
}

#[test]
fn eof_stands_on_the_last_line() {
    assert_eq!(lines(&scan("\n\n\n")), vec![4]);
    assert_eq!(lines(&scan("x")), vec![1, 1]);
    assert_eq!(lines(&scan("x\n")), vec![1, 2]);
}

#[test]
fn errors_accumulate() {
    let scanned = scan("@ # $");
    assert_eq!(kinds(&scanned), vec![TokenType::Eof]);
    assert_eq!(
        scanned.errors,
        vec![
            ScanError { line: 1, kind: ErrorKind::UnexpectedCharacter },
            ScanError { line: 1, kind: ErrorKind::UnexpectedCharacter },
            ScanError { line: 1, kind: ErrorKind::UnexpectedCharacter },
        ]
    );
}

#[test]
fn scan_goes_on_behind_an_error() {
    let scanned = scan("var @x = 1;\n# \"open");
    assert_eq!(
        kinds(&scanned),
        vec![
            TokenType::Var,
            TokenType::Identifier,
            TokenType::Equal,
            TokenType::Number,
            TokenType::Semicolon,
            TokenType::Eof,
        ]
    );
    assert_eq!(
        scanned.errors,
        vec![
            ScanError { line: 1, kind: ErrorKind::UnexpectedCharacter },
            ScanError { line: 2, kind: ErrorKind::UnexpectedCharacter },
            ScanError { line: 2, kind: ErrorKind::UnterminatedString },
        ]
    );
}

#[test]
fn error_messages() {
    assert_eq!(ErrorKind::UnexpectedCharacter.message(), "Unexpected character");
    assert_eq!(ErrorKind::UnterminatedBlockComment.message(), "Unterminated Block Comment");
    assert_eq!(ErrorKind::UnterminatedString.message(), "Unterminated String!");
    let error = ScanError { line: 3, kind: ErrorKind::UnterminatedString };
    assert_eq!(error.message(), "Unterminated String!");
}

#[test]
fn token_new_keeps_its_parts() {
    let token = Token::new(TokenType::String, "text".to_string(), Literal::String("text".to_string()), 7);
    assert_eq!(token.kind, TokenType::String);
    assert_eq!(token.lexeme, "text");
    assert_eq!(token.literal, Literal::String("text".to_string()));
    assert_eq!(token.line, 7);
}

#[test]
fn a_small_program() {
    let scanned = scan(
        "// greet\nfun greet(name) {\n  print \"hi, \" + name; /* twice? */\n  return 2.5 >= 1;\n}\n",
    );
    assert_eq!(
        kinds(&scanned),
        vec![
            TokenType::Fun,
            TokenType::Identifier,
            TokenType::LeftParen,
            TokenType::Identifier,
            TokenType::RightParen,
            TokenType::LeftBrace,
            TokenType::Print,
            TokenType::String,
            TokenType::Plus,
            TokenType::Identifier,
            TokenType::Semicolon,
            TokenType::Return,
            TokenType::Number,
            TokenType::GreaterEqual,
            TokenType::Number,
            TokenType::Semicolon,
            TokenType::RightBrace,
            TokenType::Eof,
        ]
    );
    assert_eq!(lines(&scanned), vec![2, 2, 2, 2, 2, 2, 3, 3, 3, 3, 3, 4, 4, 4, 4, 4, 5, 6]);
    assert_eq!(scanned.tokens[7].lexeme, "hi, ");
    assert_eq!(value(&scanned.tokens[12].literal), 2.5);
    assert!(scanned.errors.is_empty());
}
