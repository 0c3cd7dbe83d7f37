use lox::parser::{Parser, ParserError};
use lox::printer::AstPrinter;
use lox::scanner::Scanner;
use lox::stmt::Stmt;
use lox::token::{Token, TokenType};

#[test]
fn parse_if_stmt() {
    let src = String::from("if(y==4){ var x = 3;}else{var y = 4;}");
    let mut scanner = Scanner::new(&src);
    let tokens = scanner.scan_tokens();
    let expr = Parser::new(tokens).parse().unwrap();
    println!("{:?}", expr);
}

#[test]
fn parse_literal() {
    let tkn = Token::new(TokenType::NUMBER(32), 32.0.to_string(), 1);

    let semicolon_tkn = Token::new(TokenType::SEMICOLON, ";".to_string(), 1);
    let eof_tkn = Token::new(TokenType::EOF, "eof".to_string(), 1);

    let expr = Parser::new(&vec![tkn, semicolon_tkn, eof_tkn])
        .parse()
        .unwrap();
    let printed: String = AstPrinter::default().print_program(&expr);
    assert_eq!(printed, "32");
}

#[test]
fn parse_assignment() {
    let idnt_tkn = Token::new(
        TokenType::IDENTIFIER("x".to_string()),
        "x".to_string(),
        1,
    );

    let equal_tkn = Token::new(TokenType::EQUAL, "=".to_string(), 1);
    let expr = Token::new(TokenType::NUMBER(3), "3.0".to_string(), 1);

    let semicolon_tkn = Token::new(TokenType::SEMICOLON, ";".to_string(), 1);
    let eof_tkn = Token::new(TokenType::EOF, "eof".to_string(), 1);

    let expr = Parser::new(&vec![idnt_tkn, equal_tkn, expr, semicolon_tkn, eof_tkn])
        .assignment_rule()
        .unwrap();
    let printed = AstPrinter::default().print_expr(&expr);
    println!("Printed: {printed}");
}

#[test]
fn parse_string() {
    let str = String::from("Im a simple string");
    let tkn = Token::new(TokenType::STRING(str.clone()), str, 1);

    let semicolon_tkn = Token::new(TokenType::SEMICOLON, ";".to_string(), 1);
    let eof_tkn = Token::new(TokenType::EOF, "eof".to_string(), 1);

    let expr = Parser::new(&vec![tkn, semicolon_tkn, eof_tkn])
        .parse()
        .unwrap();
    let printed = AstPrinter::default().print_program(&expr);
    assert_eq!(printed, "Im a simple string")
}

#[test]
fn parse_boolean() {
    let bool_tkn = Token::new(TokenType::FALSE, String::from("false"), 1);

    let semicolon_tkn = Token::new(TokenType::SEMICOLON, ";".to_string(), 1);
    let eof_tkn = Token::new(TokenType::EOF, "eof".to_string(), 1);

    let expr = Parser::new(&vec![bool_tkn, semicolon_tkn, eof_tkn])
        .parse()
        .unwrap();
    let printed = AstPrinter::default().print_program(&expr);
    assert_eq!(printed, "false");
}

#[test]
fn parse_equality_literal() {
    let two_tkn = Token::new(TokenType::NUMBER(2), 2.0.to_string(), 1);
    let eqeq_tkn = Token::new(TokenType::EQUALEQUAL, "==".to_string(), 1);
    let three_tkn = Token::new(TokenType::NUMBER(3), 3.0.to_string(), 1);

    let semicolon_tkn = Token::new(TokenType::SEMICOLON, ";".to_string(), 1);
    let eof_tkn = Token::new(TokenType::EOF, "eof".to_string(), 1);
    let expr = Parser::new(&vec![two_tkn, eqeq_tkn, three_tkn, semicolon_tkn, eof_tkn]).parse();
    println!("{:?}", expr);
}

#[test]
fn parse_comparison_literal() {
    let two_tkn = Token::new(TokenType::NUMBER(2), 2.0.to_string(), 1);
    let grtr_tkn = Token::new(TokenType::GREATER, ">".to_string(), 1);
    let three_tkn = Token::new(TokenType::NUMBER(3), 3.0.to_string(), 1);

    let semicolon_tkn = Token::new(TokenType::SEMICOLON, ";".to_string(), 1);
    let eof_tkn = Token::new(TokenType::EOF, "eof".to_string(), 1);

    let expr = Parser::new(&vec![two_tkn, grtr_tkn, three_tkn, semicolon_tkn, eof_tkn])
        .parse()
        .unwrap();

    let printed = AstPrinter::default().print_program(&expr);
    assert_eq!(printed, "(> 2 3)")
}

#[test]
fn parse_term_literal() {
    let two_tkn = Token::new(TokenType::NUMBER(2), 2.0.to_string(), 1);
    let plus_tkn = Token::new(TokenType::PLUS, "+".to_string(), 1);
    let three_tkn = Token::new(TokenType::NUMBER(3), 3.0.to_string(), 1);

    let semicolon_tkn = Token::new(TokenType::SEMICOLON, ";".to_string(), 1);
    let eof_tkn = Token::new(TokenType::EOF, "eof".to_string(), 1);
    let expr = Parser::new(&vec![two_tkn, plus_tkn, three_tkn, semicolon_tkn, eof_tkn])
        .parse()
        .unwrap();

    let printed = AstPrinter::default().print_program(&expr);
    assert_eq!(printed, "(+ 2 3)")
}

#[test]
fn parse_factor_literal() {
    let three_tkn = Token::new(TokenType::NUMBER(3), 3.0.to_string(), 1);
    let star_tkn = Token::new(TokenType::STAR, "*".to_string(), 1);
    let four_tkn = Token::new(TokenType::NUMBER(4), 4.0.to_string(), 1);

    let semicolon_tkn = Token::new(TokenType::SEMICOLON, ";".to_string(), 1);
    let eof_tkn = Token::new(TokenType::EOF, "eof".to_string(), 1);
    let expr = Parser::new(&vec![three_tkn, star_tkn, four_tkn, semicolon_tkn, eof_tkn])
        .parse()
        .unwrap();

    let printed = AstPrinter::default().print_program(&expr);
    assert_eq!(printed, "(* 3 4)")
}

#[test]
fn parse_unary() {
    let bang_tkn = Token::new(TokenType::BANG, "!".to_string(), 1);
    let number_tkn = Token::new(TokenType::NUMBER(32), 32.0.to_string(), 1);

    let semicolon_tkn = Token::new(TokenType::SEMICOLON, ";".to_string(), 1);
    let eof_tkn = Token::new(TokenType::EOF, "eof".to_string(), 1);
    let expr = Parser::new(&vec![bang_tkn, number_tkn, semicolon_tkn, eof_tkn])
        .parse()
        .unwrap();
    let printed = AstPrinter::default().print_program(&expr);
    println!("Printed: {:?}", printed);
    assert_eq!(printed, "(! 32)");
}

#[test]
fn parse_grouped_number_literal() {
    let left_paren = Token::new(TokenType::LEFTPAREN, "(".to_string(), 1);
    let right_paren = Token::new(TokenType::RIGHTPAREN, ")".to_string(), 1);
    let number_tkn = Token::new(TokenType::NUMBER(32), 32.0.to_string(), 1);

    let semicolon_tkn = Token::new(TokenType::SEMICOLON, ";".to_string(), 1);
    let eof_tkn = Token::new(TokenType::EOF, "eof".to_string(), 1);
    let expr = Parser::new(&vec![
        left_paren,
        number_tkn,
        right_paren,
        semicolon_tkn,
        eof_tkn,
    ])
    .parse()
    .unwrap();

    let printed = AstPrinter::default().print_program(&expr);

    assert_eq!(printed, "(group 32)");
}

#[test]
fn test_end_eof() {
    let eof_tkn = Token::new(TokenType::EOF, "eof".to_string(), 1);
    let is = Parser::new(&vec![eof_tkn]).is_at_end();
    assert!(is)
}

#[test]
fn test_end_non_eof() {
    let number_tkn = Token::new(TokenType::NUMBER(32), 32.0.to_string(), 1);

    let semicolon_tkn = Token::new(TokenType::SEMICOLON, ";".to_string(), 1);
    let eof_tkn = Token::new(TokenType::EOF, "eof".to_string(), 1);
    let is_eof = Parser::new(&vec![number_tkn, semicolon_tkn, eof_tkn]).is_at_end();
    assert!(!is_eof)
}

fn parse_source(src: &str) -> Result<Vec<Stmt>, ParserError> {
    let mut scanner = Scanner::new(src);
    let tokens = scanner.scan_tokens();
    Parser::new(tokens).parse()
}

#[test]
fn parse_while_stmt() {
    let program = parse_source("while (x < 3) { x = x + 1; }").unwrap();
    assert_eq!(program.len(), 1);
    assert!(matches!(program[0], Stmt::WHILE(_, _)));
}

#[test]
fn parse_invalid_assignment_target() {
    let result = parse_source("1 = 2;");
    assert!(matches!(
        result,
        Err(ParserError::NonValidAssignmentTarget)
    ));
}

#[test]
fn parse_missing_semicolon() {
    let result = parse_source("print 1");
    assert!(matches!(result, Err(ParserError::UnexpectedToken(_))));
}

#[test]
fn parse_unterminated_block() {
    let result = parse_source("{ var x = 1;");
    assert!(matches!(result, Err(ParserError::UnexpectedToken(_))));
}

#[test]
fn parse_nil_literal() {
    let program = parse_source("nil;").unwrap();
    let printed = AstPrinter::default().print_program(&program);
    assert_eq!(printed, "nil");
}

#[test]
fn parse_left_associative_chain() {
    let program = parse_source("1 - 2 - 3;").unwrap();
    let printed = AstPrinter::default().print_program(&program);
    assert_eq!(printed, "(- (- 1 2) 3)");
}
