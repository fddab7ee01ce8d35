use minilex::error::{CompilerError, ErrorBucket, ErrorReporter};
use minilex::lexer::{tokenize, Lexer, LexerError};
use minilex::token::{Keyword, Span, Token, TokenKind};

fn kinds(input: &str) -> (Vec<TokenKind>, usize) {
    let mut bucket: ErrorBucket<LexerError> = ErrorBucket::new();
    let tokens = tokenize(input, &mut bucket);
    let n_errors = bucket.errors().len();
    (tokens.into_iter().map(|t| t.kind).collect(), n_errors)
}

#[test]
fn digit_run_scans_to_one_number() {
    let mut bucket: ErrorBucket<LexerError> = ErrorBucket::new();
    let tokens = tokenize("12345", &mut bucket);
    assert_eq!(
        tokens,
        vec![Token::new(TokenKind::Number(12345), Span::new(1, 1))]
    );
    assert!(!bucket.has_errors());
    assert!(bucket.errors().is_empty());
}

#[test]
fn zero_scans_without_error() {
    let (ks, n_errors) = kinds("0");
    assert_eq!(ks, vec![TokenKind::Number(0)]);
    assert_eq!(n_errors, 0);
}

#[test]
fn overflowing_number_yields_zero_and_one_error() {
    let mut bucket: ErrorBucket<LexerError> = ErrorBucket::new();
    let tokens = tokenize("123456789012345678901234567890", &mut bucket);
    assert_eq!(
        tokens,
        vec![Token::new(TokenKind::Number(0), Span::new(1, 1))]
    );
    assert!(bucket.has_errors());
    assert_eq!(bucket.errors().len(), 1);
    let err = &bucket.errors()[0];
    assert_eq!(err.id(), 0x1);
    assert_eq!(err.title(), "Couldn't Parse the number!");
    assert_eq!(err.summary(), "1:1");
    assert_eq!(err.description(), "ERRR");
    assert_eq!(err.stage(), "Lexer");
}

#[test]
fn whitespace_produces_no_tokens() {
    let (ks, n_errors) = kinds("  \r\n \n  ");
    assert!(ks.is_empty());
    assert_eq!(n_errors, 0);
}

#[test]
fn whitespace_runs_do_not_change_kinds() {
    let (ks1, e1) = kinds("12 ab");
    let (ks2, e2) = kinds("12  \r\n   ab");
    assert_eq!(ks1, ks2);
    assert_eq!(e1, e2);
    assert_eq!(ks1, vec![TokenKind::Number(12), TokenKind::Identifier("ab".to_string())]);
}

#[test]
fn illegal_char_yields_token_and_one_error() {
    let mut bucket: ErrorBucket<LexerError> = ErrorBucket::new();
    let tokens = tokenize("@", &mut bucket);
    assert_eq!(
        tokens,
        vec![Token::new(TokenKind::Illegal('@'), Span::new(1, 1))]
    );
    assert_eq!(bucket.errors().len(), 1);
    let err = &bucket.errors()[0];
    assert_eq!(err.id(), 0x1);
    assert_eq!(err.title(), "Illegal char");
    assert_eq!(err.summary(), "1:1");
    assert_eq!(err.description(), "Couldn't lex this char '@'");
    assert_eq!(err.stage(), "Lexer");
    assert_eq!(
        err.render(),
        "Lexer | Illegal char at 1:1 => Couldn't lex this char '@'"
    );
}

#[test]
fn non_ascii_char_is_illegal() {
    let (ks, n_errors) = kinds("é");
    assert_eq!(ks, vec![TokenKind::Illegal('é')]);
    assert_eq!(n_errors, 1);
}

#[test]
fn keywords_and_identifiers_classify_exactly() {
    let (ks, n_errors) = kinds("let fn return if else letx Let elsee re");
    assert_eq!(
        ks,
        vec![
            TokenKind::Keyword(Keyword::Let),
            TokenKind::Keyword(Keyword::Function),
            TokenKind::Keyword(Keyword::Return),
            TokenKind::Keyword(Keyword::If),
            TokenKind::Keyword(Keyword::Else),
            TokenKind::Identifier("letx".to_string()),
            TokenKind::Identifier("Let".to_string()),
            TokenKind::Identifier("elsee".to_string()),
            TokenKind::Identifier("re".to_string()),
        ]
    );
    assert_eq!(n_errors, 0);
}

#[test]
fn punctuation_table_is_total() {
    let (ks, n_errors) = kinds("=<>:;()[].+-*/\"");
    assert_eq!(
        ks,
        vec![
            TokenKind::Equal,
            TokenKind::Lessthan,
            TokenKind::Greaterthan,
            TokenKind::Colon,
            TokenKind::Semicolon,
            TokenKind::LeftParent,
            TokenKind::RightParent,
            TokenKind::LeftSquareBracket,
            TokenKind::RightSquareBracket,
            TokenKind::Dot,
            TokenKind::Plus,
            TokenKind::Minus,
            TokenKind::Asterisk,
            TokenKind::Slash,
            TokenKind::Quotation,
        ]
    );
    assert_eq!(n_errors, 0);
}

#[test]
fn demo_input_scans_to_expected_sequence() {
    let mut bucket: ErrorBucket<LexerError> = ErrorBucket::new();
    let tokens = tokenize("12345 999999 \"Bruh\" 123456 let bruh +-/*()[] 0b @", &mut bucket);
    let ks: Vec<TokenKind> = tokens.into_iter().map(|t| t.kind).collect();
    assert_eq!(
        ks,
        vec![
            TokenKind::Number(12345),
            TokenKind::Number(999999),
            TokenKind::Quotation,
            TokenKind::Identifier("Bruh".to_string()),
            TokenKind::Quotation,
            TokenKind::Number(123456),
            TokenKind::Keyword(Keyword::Let),
            TokenKind::Identifier("bruh".to_string()),
            TokenKind::Plus,
            TokenKind::Minus,
            TokenKind::Slash,
            TokenKind::Asterisk,
            TokenKind::LeftParent,
            TokenKind::RightParent,
            TokenKind::LeftSquareBracket,
            TokenKind::RightSquareBracket,
            TokenKind::Number(0),
            TokenKind::Identifier("b".to_string()),
            TokenKind::Illegal('@'),
        ]
    );
    assert_eq!(bucket.errors().len(), 1);
    assert_eq!(bucket.errors()[0].title(), "Illegal char");
}

#[test]
fn scanning_twice_is_idempotent() {
    let input = "let x = 12 @ \n 99999999999999999999999 end";
    let mut bucket1: ErrorBucket<LexerError> = ErrorBucket::new();
    let tokens1 = tokenize(input, &mut bucket1);
    let mut bucket2: ErrorBucket<LexerError> = ErrorBucket::new();
    let tokens2 = tokenize(input, &mut bucket2);
    assert_eq!(tokens1, tokens2);
    assert_eq!(bucket1.errors().len(), bucket2.errors().len());
    for (e1, e2) in bucket1.errors().iter().zip(bucket2.errors().iter()) {
        assert_eq!(e1.id(), e2.id());
        assert_eq!(e1.title(), e2.title());
        assert_eq!(e1.summary(), e2.summary());
        assert_eq!(e1.description(), e2.description());
        assert_eq!(e1.stage(), e2.stage());
    }
}

#[test]
fn spans_track_lines_without_resetting_columns() {
    let mut bucket: ErrorBucket<LexerError> = ErrorBucket::new();
    let tokens = tokenize("ab cd\n ef", &mut bucket);
    assert_eq!(
        tokens,
        vec![
            Token::new(TokenKind::Identifier("ab".to_string()), Span::new(1, 1)),
            Token::new(TokenKind::Identifier("cd".to_string()), Span::new(1, 4)),
            // The line advances on the line feed, but the column counter is
            // deliberately not reset on a line break.
            Token::new(TokenKind::Identifier("ef".to_string()), Span::new(2, 7)),
        ]
    );
    assert!(!bucket.has_errors());
}

#[test]
fn error_span_points_at_token_start() {
    let mut bucket: ErrorBucket<LexerError> = ErrorBucket::new();
    let tokens = tokenize("12345678901234567890123456 @", &mut bucket);
    assert_eq!(tokens[0].kind, TokenKind::Number(0));
    assert_eq!(tokens[0].span, Span::new(1, 1));
    assert_eq!(tokens[1].kind, TokenKind::Illegal('@'));
    assert_eq!(tokens[1].span, Span::new(1, 28));
    assert_eq!(bucket.errors().len(), 2);
    assert_eq!(bucket.errors()[0].title(), "Couldn't Parse the number!");
    assert_eq!(bucket.errors()[0].summary(), "1:1");
    assert_eq!(bucket.errors()[1].title(), "Illegal char");
    assert_eq!(bucket.errors()[1].summary(), "1:28");
}

#[test]
fn pull_iteration_stops_at_end_of_input() {
    let mut bucket: ErrorBucket<LexerError> = ErrorBucket::new();
    let mut lexer = Lexer::new("1 a");
    let first = lexer.next(&mut bucket);
    assert_eq!(first, Some(Token::new(TokenKind::Number(1), Span::new(1, 1))));
    let second = lexer.next(&mut bucket);
    assert_eq!(
        second,
        Some(Token::new(TokenKind::Identifier("a".to_string()), Span::new(1, 3)))
    );
    assert_eq!(lexer.next(&mut bucket), None);
    assert_eq!(lexer.next(&mut bucket), None);
    assert!(!bucket.has_errors());
}

#[test]
fn digits_do_not_continue_identifiers() {
    let (ks, n_errors) = kinds("ab1");
    assert_eq!(
        ks,
        vec![TokenKind::Identifier("ab".to_string()), TokenKind::Number(1)]
    );
    assert_eq!(n_errors, 0);
}
