use minilex::error::{CompilerError, ErrorBucket, ErrorReporter};
use minilex::lexer::LexerError;
use minilex::parser::ParserError;
use minilex::token::{Keyword, Span, Token, TokenKind};

#[test]
fn new_bucket_is_empty() {
    let bucket: ErrorBucket<LexerError> = ErrorBucket::new();
    assert!(!bucket.has_errors());
    assert!(bucket.errors().is_empty());
}

#[test]
fn reported_errors_keep_insertion_order() {
    let mut bucket: ErrorBucket<LexerError> = ErrorBucket::new();
    bucket.report(LexerError::new(
        "first".to_string(),
        "one".to_string(),
        &Span::new(1, 2),
    ));
    bucket.report(LexerError::new(
        "second".to_string(),
        "two".to_string(),
        &Span::new(3, 44),
    ));
    assert!(bucket.has_errors());
    assert_eq!(bucket.errors().len(), 2);
    assert_eq!(bucket.errors()[0].title(), "first");
    assert_eq!(bucket.errors()[0].summary(), "1:2");
    assert_eq!(bucket.errors()[1].title(), "second");
    assert_eq!(bucket.errors()[1].summary(), "3:44");
}

#[test]
fn lexer_error_fields_and_rendering() {
    let err = LexerError::new(
        "Illegal char".to_string(),
        "Couldn't lex this char '~'".to_string(),
        &Span::new(12, 345),
    );
    assert_eq!(err.id(), 0x1);
    assert_eq!(err.stage(), "Lexer");
    assert_eq!(err.title(), "Illegal char");
    assert_eq!(err.summary(), "12:345");
    assert_eq!(err.description(), "Couldn't lex this char '~'");
    assert_eq!(
        err.render(),
        "Lexer | Illegal char at 12:345 => Couldn't lex this char '~'"
    );
}

#[test]
fn parser_error_fields_and_rendering() {
    let err = ParserError::new(
        "Unexpected token".to_string(),
        "expected a number".to_string(),
        &Span::new(7, 9),
    );
    assert_eq!(err.id(), 0x2);
    assert_eq!(err.stage(), "Parser");
    assert_eq!(err.title(), "Unexpected token");
    assert_eq!(err.summary(), "7:9");
    assert_eq!(err.description(), "expected a number");
    assert_eq!(
        err.render(),
        "Parser | Unexpected token at 7:9 => expected a number"
    );
}

#[test]
fn span_and_token_constructors_keep_fields() {
    let span = Span::new(4, 17);
    assert_eq!(span.line, 4);
    assert_eq!(span.col, 17);
    let token = Token::new(TokenKind::Semicolon, span);
    assert_eq!(token.kind, TokenKind::Semicolon);
    assert_eq!(token.span, Span::new(4, 17));
}

#[test]
fn char_classification_is_total() {
    assert_eq!(TokenKind::from('='), TokenKind::Equal);
    assert_eq!(TokenKind::from('<'), TokenKind::Lessthan);
    assert_eq!(TokenKind::from('>'), TokenKind::Greaterthan);
    assert_eq!(TokenKind::from(':'), TokenKind::Colon);
    assert_eq!(TokenKind::from(';'), TokenKind::Semicolon);
    assert_eq!(TokenKind::from('('), TokenKind::LeftParent);
    assert_eq!(TokenKind::from(')'), TokenKind::RightParent);
    assert_eq!(TokenKind::from('['), TokenKind::LeftSquareBracket);
    assert_eq!(TokenKind::from(']'), TokenKind::RightSquareBracket);
    assert_eq!(TokenKind::from('.'), TokenKind::Dot);
    assert_eq!(TokenKind::from('+'), TokenKind::Plus);
    assert_eq!(TokenKind::from('-'), TokenKind::Minus);
    assert_eq!(TokenKind::from('*'), TokenKind::Asterisk);
    assert_eq!(TokenKind::from('/'), TokenKind::Slash);
    assert_eq!(TokenKind::from('"'), TokenKind::Quotation);
    assert_eq!(TokenKind::from('~'), TokenKind::Illegal('~'));
    assert_eq!(TokenKind::from('@'), TokenKind::Illegal('@'));
}

#[test]
fn word_classification_matches_keywords_exactly() {
    assert_eq!(
        TokenKind::from("let".to_string()),
        TokenKind::Keyword(Keyword::Let)
    );
    assert_eq!(
        TokenKind::from("fn".to_string()),
        TokenKind::Keyword(Keyword::Function)
    );
    assert_eq!(
        TokenKind::from("return".to_string()),
        TokenKind::Keyword(Keyword::Return)
    );
    assert_eq!(TokenKind::from("if".to_string()), TokenKind::Keyword(Keyword::If));
    assert_eq!(
        TokenKind::from("else".to_string()),
        TokenKind::Keyword(Keyword::Else)
    );
    assert_eq!(
        TokenKind::from("Let".to_string()),
        TokenKind::Identifier("Let".to_string())
    );
    assert_eq!(
        TokenKind::from("le".to_string()),
        TokenKind::Identifier("le".to_string())
    );
    assert_eq!(
        TokenKind::from("lets".to_string()),
        TokenKind::Identifier("lets".to_string())
    );
}
