use lang::errors::ParserError;
use lang::lexer::Lexer;
use lang::parser::Parser;
use lang::statements::Statement;
use lang::tokens::TokenKind;

fn parse_source(source: &str) -> Result<Vec<Statement>, ParserError> {
    let tokens = Lexer::new(source).lex().unwrap();
    Parser::new(&tokens).parse()
}

#[test]
fn parse_loop_with_increment() {
    let actual = parse_source("[+]").unwrap();
    let expected = vec![Statement::Loop(vec![Statement::Increment])];
    assert_eq!(actual, expected);
}

#[test]
fn parse_stray_closing_bracket() {
    assert_eq!(
        parse_source("]"),
        Err(ParserError::UnexpectedToken(TokenKind::ClosingBracket))
    );
}

#[test]
fn parse_unterminated_loop() {
    assert_eq!(
        parse_source("["),
        Err(ParserError::UnexpectedToken(TokenKind::EndOfFile))
    );
    assert_eq!(
        parse_source("+[->"),
        Err(ParserError::UnexpectedToken(TokenKind::EndOfFile))
    );
}

#[test]
fn parse_leaves() {
    let actual = parse_source("+-<>,.").unwrap();
    let expected = vec![
        Statement::Increment,
        Statement::Decrement,
        Statement::MoveLeft,
        Statement::MoveRight,
        Statement::Input,
        Statement::Output,
    ];
    assert_eq!(actual, expected);
}

#[test]
fn parse_nested_loops() {
    let actual = parse_source("[[]]").unwrap();
    let expected = vec![Statement::Loop(vec![Statement::Loop(vec![])])];
    assert_eq!(actual, expected);

    let actual = parse_source("+[->+<]-").unwrap();
    let expected = vec![
        Statement::Increment,
        Statement::Loop(vec![
            Statement::Decrement,
            Statement::MoveRight,
            Statement::Increment,
            Statement::MoveLeft,
        ]),
        Statement::Decrement,
    ];
    assert_eq!(actual, expected);
}

#[test]
fn parse_empty_input() {
    assert_eq!(parse_source(""), Ok(vec![]));
}

#[test]
fn render_round_trip() {
    let source = " + [ - > + < ] .\n";
    let forest = parse_source(source).unwrap();
    let mut rendered = String::new();
    for statement in &forest {
        rendered.push_str(&statement.render());
    }
    assert_eq!(rendered, "+[->+<].");
}
