use lox::expr::Expr;
use lox::printer::AstPrinter;
use lox::scanner::Scanner;
use lox::parser::Parser;
use lox::token::{Token, TokenType};

#[test]
fn print_number_literal() {
    let number_literal = Expr::NumberLit(65);

    let result = AstPrinter::default().print_expr(&Box::new(number_literal));
    assert!(result == String::from("65"))
}

#[test]
fn print_string_literal() {
    let number_literal = Expr::StringLit(Box::new(String::from("Im string literal")));

    let result = AstPrinter::default().print_expr(&Box::new(number_literal));
    assert_eq!(result, String::from("Im string literal"))
}

#[test]
fn print_factor() {
    let star_tkn = Token::new(TokenType::STAR, "*".to_string(), 1);
    let four_tkn = Expr::NumberLit(4);
    let three_tkn = Expr::NumberLit(3);
    let factor_expr = Expr::Binary(Box::new(three_tkn), Box::new(star_tkn), Box::new(four_tkn));
    let result = AstPrinter::default().print_expr(&factor_expr);
    assert_eq!(result, "(* 3 4)");
}

#[test]
fn print_binary() {
    let string_literal = Box::new(Expr::StringLit(Box::new(String::from("Im string literal"))));
    let number_literal = Box::new(Expr::NumberLit(65));
    let tkn: Box<Token> = Box::new(Token::new(TokenType::BANGEQUAL, "!=".to_string(), 0));

    let binary_expr = Expr::Binary(number_literal, tkn, string_literal);
    let result = AstPrinter::default().print_expr(&binary_expr);

    assert_eq!(result, "(!= 65 Im string literal)".to_string())
}

#[test]
fn print_negative_number() {
    let result = AstPrinter::default().print_expr(&Expr::NumberLit(-3));
    assert_eq!(result, "-3");
}

#[test]
fn print_assignment_form() {
    let assignment = Expr::Assignment(
        Box::new("x".to_string()),
        Box::new(Expr::NumberLit(5)),
    );
    let result = AstPrinter::default().print_expr(&assignment);
    assert_eq!(result, "(= x 5)");
}

// the concrete scenarios of the expression pipeline

#[test]
fn number() {
    let source = String::from("65");
    let mut scanner = Scanner::new(&source);
    let tkns = scanner.scan_tokens();

    let expr = Parser::new(tkns).expr_rule().unwrap();

    let printed = AstPrinter::default().print_expr(&expr);

    assert_eq!(printed, "65")
}

#[test]
fn unary_bang() {
    let source = String::from("!3");
    let mut scanner = Scanner::new(&source);
    let tkns = scanner.scan_tokens();

    let expr = Parser::new(tkns).expr_rule().unwrap();

    let printed = AstPrinter::default().print_expr(&expr);

    assert_eq!(printed, "(! 3)")
}

#[test]
fn equal_with_bang() {
    let source = String::from("!3 == 4");
    let mut scanner = Scanner::new(&source);
    let tkns = scanner.scan_tokens();

    let expr = Parser::new(tkns).expr_rule().unwrap();

    let printed = AstPrinter::default().print_expr(&expr);
    assert_eq!(printed, "(== (! 3) 4)")
}
