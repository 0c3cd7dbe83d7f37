use lox::scanner::Scanner;
use lox::token::{Token, TokenType};

fn scan(src: &str) -> (Vec<Token>, usize) {
    let mut scanner = Scanner::new(src);
    let _ = scanner.scan_tokens();
    let diags = scanner.diagnostics.len();
    (scanner.tokens, diags)
}

#[test]
fn boolean_last_tkn() {
    let src = String::from("true;");
    let mut scanner = Scanner::new(&src);
    let tokens = scanner.scan_tokens();
    let expected = &vec![
        Token {
            token_type: TokenType::TRUE,
            lexeme: "true".to_string(),
            line: 0,
        },
        Token {
            token_type: TokenType::SEMICOLON,
            lexeme: ";".to_string(),
            line: 0,
        },
        Token {
            token_type: TokenType::EOF,
            lexeme: "".to_string(),
            line: 0,
        },
    ];
    assert_eq!(tokens, expected)
}

#[test]
fn scan_string() {
    let src = String::from("\"Im a simple string\"");
    let mut scanner = Scanner::new(&src);
    let tokens = scanner.scan_tokens();
    let expected = &vec![
        Token {
            token_type: TokenType::STRING("Im a simple string".to_string()),
            lexeme: "Im a simple string".to_string(),
            line: 0,
        },
        Token {
            token_type: TokenType::EOF,
            lexeme: "".to_string(),
            line: 0,
        },
    ];
    assert_eq!(tokens, expected);
}

#[test]
fn scan_comment() {
    let src = String::from("//Ingore comment");
    let mut scanner = Scanner::new(&src);
    let tokens = scanner.scan_tokens();
    println!("{:?}", tokens);
    let expected = &vec![Token {
        token_type: TokenType::EOF,
        lexeme: "".to_string(),
        line: 0,
    }];
    assert_eq!(tokens, expected);
}

#[test]
fn scan_unary_expr() {
    let src = String::from("!3");
    let mut scanner = Scanner::new(&src);
    let tokens = scanner.scan_tokens();
    let expected = &vec![
        Token {
            token_type: TokenType::BANG,
            lexeme: "!".to_string(),
            line: 0,
        },
        Token {
            token_type: TokenType::NUMBER(3),
            lexeme: "3".to_string(),
            line: 0,
        },
        Token {
            token_type: TokenType::EOF,
            lexeme: "".to_string(),
            line: 0,
        },
    ];
    assert_eq!(tokens, expected);
}

#[test]
fn scan_bang_eq() {
    let src = String::from("3!=4");
    let mut scanner = Scanner::new(&src);
    let tokens = scanner.scan_tokens();
    let expected = &vec![
        Token {
            token_type: TokenType::NUMBER(3),
            lexeme: "3".to_string(),
            line: 0,
        },
        Token {
            token_type: TokenType::BANGEQUAL,
            lexeme: "!=".to_string(),
            line: 0,
        },
        Token {
            token_type: TokenType::NUMBER(4),
            lexeme: "4".to_string(),
            line: 0,
        },
        Token {
            token_type: TokenType::EOF,
            lexeme: "".to_string(),
            line: 0,
        },
    ];
    assert_eq!(tokens, expected);
}

#[test]
fn scan_grtr() {
    let src = String::from("3>4");
    let mut scanner = Scanner::new(&src);
    let tokens = scanner.scan_tokens();
    let expected = &vec![
        Token {
            token_type: TokenType::NUMBER(3),
            lexeme: "3".to_string(),
            line: 0,
        },
        Token {
            token_type: TokenType::GREATER,
            lexeme: ">".to_string(),
            line: 0,
        },
        Token {
            token_type: TokenType::NUMBER(4),
            lexeme: "4".to_string(),
            line: 0,
        },
        Token {
            token_type: TokenType::EOF,
            lexeme: "".to_string(),
            line: 0,
        },
    ];
    assert_eq!(tokens, expected);
}

#[test]
fn variable_declaration() {
    let src = String::from("var asd = 123;");
    let mut scanner = Scanner::new(&src);
    let tokens = scanner.scan_tokens();
    println!("{:?}", tokens)
}

#[test]
fn scan_fractional_literal_keeps_integer_part() {
    // a fraction is consumed into the lexeme; the value is the integer part
    let (tokens, diags) = scan("3.2");
    assert_eq!(diags, 0);
    assert_eq!(
        tokens,
        vec![
            Token {
                token_type: TokenType::NUMBER(3),
                lexeme: "3.2".to_string(),
                line: 0,
            },
            Token {
                token_type: TokenType::EOF,
                lexeme: "".to_string(),
                line: 0,
            },
        ]
    );
}

#[test]
fn scan_trailing_dot_is_not_consumed() {
    let (tokens, _) = scan("3.");
    assert_eq!(tokens[0].token_type, TokenType::NUMBER(3));
    assert_eq!(tokens[0].lexeme, "3");
    assert_eq!(tokens[1].token_type, TokenType::DOT);
}

#[test]
fn scan_keywords_and_identifiers() {
    let (tokens, _) = scan("var while_x = nil;");
    assert_eq!(tokens[0].token_type, TokenType::VAR);
    assert_eq!(
        tokens[1].token_type,
        TokenType::IDENTIFIER("while_x".to_string())
    );
    assert_eq!(tokens[1].lexeme, "while_x");
    assert_eq!(tokens[2].token_type, TokenType::EQUAL);
    assert_eq!(tokens[3].token_type, TokenType::NIL);
    assert_eq!(tokens[4].token_type, TokenType::SEMICOLON);
}

#[test]
fn scan_two_char_operators() {
    let (tokens, _) = scan("<= >= == !=");
    assert_eq!(tokens[0].token_type, TokenType::LESSEQUAL);
    assert_eq!(tokens[1].token_type, TokenType::GREATEREQUAL);
    assert_eq!(tokens[2].token_type, TokenType::EQUALEQUAL);
    assert_eq!(tokens[3].token_type, TokenType::BANGEQUAL);
}

#[test]
fn scan_counts_lines() {
    let (tokens, _) = scan("one\ntwo");
    assert_eq!(tokens[0].line, 0);
    assert_eq!(tokens[1].line, 1);
    assert_eq!(tokens[2].token_type, TokenType::EOF);
}

#[test]
fn scan_unexpected_character_continues() {
    let mut scanner = Scanner::new("@ 1");
    let _ = scanner.scan_tokens();
    assert_eq!(scanner.diagnostics.len(), 1);
    assert_eq!(scanner.diagnostics[0].message, "Unexpected character");
    assert_eq!(scanner.diagnostics[0].line, 0);
    assert_eq!(scanner.tokens[0].token_type, TokenType::NUMBER(1));
}

#[test]
fn scan_unterminated_string_is_reported() {
    let mut scanner = Scanner::new("\"open");
    let _ = scanner.scan_tokens();
    assert_eq!(scanner.diagnostics.len(), 1);
    assert_eq!(scanner.diagnostics[0].message, "Unterminated string");
    assert_eq!(scanner.tokens.len(), 1); // only the end marker
}

#[test]
fn scan_block_comment_single_pass() {
    let (tokens, diags) = scan("1 /* any ** text */ 2");
    assert_eq!(diags, 0);
    assert_eq!(tokens[0].token_type, TokenType::NUMBER(1));
    assert_eq!(tokens[1].token_type, TokenType::NUMBER(2));
    assert_eq!(tokens.len(), 3);
}

#[test]
fn scan_block_comment_counts_lines() {
    let (tokens, _) = scan("/* a\nb */ 7");
    assert_eq!(tokens[0].token_type, TokenType::NUMBER(7));
    assert_eq!(tokens[0].line, 1);
}

#[test]
fn scan_unterminated_block_comment_is_reported() {
    let mut scanner = Scanner::new("/* open");
    let _ = scanner.scan_tokens();
    assert_eq!(scanner.diagnostics.len(), 1);
    assert_eq!(scanner.diagnostics[0].message, "Unterminated block comment");
}

#[test]
fn scan_multiline_string_token_line() {
    let (tokens, _) = scan("\"a\nb\"");
    assert_eq!(
        tokens[0].token_type,
        TokenType::STRING("a\nb".to_string())
    );
    assert_eq!(tokens[0].line, 1);
}
