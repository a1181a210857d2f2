use lang::errors::LanguageError;
use lang::lexer::Lexer;
use lang::tokens::{Token, TokenKind};

#[test]
fn test_lex() {
    let source = "+-<>,.[]";

    let actual = Lexer::new(source).lex().unwrap();
    let expected = vec![
        Token::new(TokenKind::Plus, 0..1),
        Token::new(TokenKind::Minus, 1..2),
        Token::new(TokenKind::LessThan, 2..3),
        Token::new(TokenKind::GreaterThan, 3..4),
        Token::new(TokenKind::Comma, 4..5),
        Token::new(TokenKind::Dot, 5..6),
        Token::new(TokenKind::OpeningBracket, 6..7),
        Token::new(TokenKind::ClosingBracket, 7..8),
    ];

    assert_eq!(actual, expected);
}

#[test]
fn test_lex_error() {
    let source = "a";

    let actual = Lexer::new(source).lex();
    let expected = Err(LanguageError::UnexpectedCharacter('a'));

    assert_eq!(actual, expected);
}

#[test]
fn lex_skips_whitespace() {
    let source = " +\t-\n< \u{a0}>";

    let actual = Lexer::new(source).lex().unwrap();
    let kinds: Vec<TokenKind> = actual.iter().map(|t| t.kind).collect();
    assert_eq!(
        kinds,
        vec![
            TokenKind::Plus,
            TokenKind::Minus,
            TokenKind::LessThan,
            TokenKind::GreaterThan,
        ]
    );
    assert_eq!(actual[0].span, 1..2);
    assert_eq!(actual[3].span, 8..9);
}

#[test]
fn lex_rejects_first_bad_character() {
    assert_eq!(
        Lexer::new("++ ?! --").lex(),
        Err(LanguageError::UnexpectedCharacter('?'))
    );
    assert_eq!(
        Lexer::new("x").lex(),
        Err(LanguageError::UnexpectedCharacter('x'))
    );
    assert_eq!(
        Lexer::new("[.]0").lex(),
        Err(LanguageError::UnexpectedCharacter('0'))
    );
}

#[test]
fn lex_empty_source() {
    assert_eq!(Lexer::new("").lex(), Ok(vec![]));
    assert_eq!(Lexer::new("  \n\t ").lex(), Ok(vec![]));
}

#[test]
fn token_kind_try_from() {
    assert_eq!(TokenKind::try_from('+'), Ok(TokenKind::Plus));
    assert_eq!(TokenKind::try_from(']'), Ok(TokenKind::ClosingBracket));
    assert_eq!(
        TokenKind::try_from('x'),
        Err(LanguageError::UnexpectedCharacter('x'))
    );
}

#[test]
fn token_kind_symbols() {
    assert_eq!(TokenKind::Plus.symbol(), "+");
    assert_eq!(TokenKind::OpeningBracket.symbol(), "[");
    assert_eq!(TokenKind::EndOfFile.symbol(), "EoF");
}
