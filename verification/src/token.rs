use vstd::prelude::*;

verus! {

/// The lexical categories of the language. Identifier, string and number
/// tokens carry their payload; every other category is a plain tag.
#[derive(Debug, PartialEq)]
pub enum TokenType {
    LEFTPAREN,
    RIGHTPAREN,
    LEFTBRACE,
    RIGHTBRACE,
    COMMA,
    DOT,
    MINUS,
    PLUS,
    SEMICOLON,
    SLASH,
    STAR,
    BANG,
    BANGEQUAL,
    EQUAL,
    EQUALEQUAL,
    GREATER,
    GREATEREQUAL,
    LESS,
    LESSEQUAL,
    IDENTIFIER(String),
    STRING(String),
    NUMBER(i64),
    AND,
    CLASS,
    ELSE,
    FALSE,
    FUN,
    FOR,
    IF,
    NIL,
    OR,
    PRINT,
    RETURN,
    SUPER,
    THIS,
    TRUE,
    VAR,
    WHILE,
    EOF,
}

/// Mathematical model of a `TokenType`: the same categories with string
/// payloads abstracted to character sequences.
pub enum TokenTypeV {
    LEFTPAREN,
    RIGHTPAREN,
    LEFTBRACE,
    RIGHTBRACE,
    COMMA,
    DOT,
    MINUS,
    PLUS,
    SEMICOLON,
    SLASH,
    STAR,
    BANG,
    BANGEQUAL,
    EQUAL,
    EQUALEQUAL,
    GREATER,
    GREATEREQUAL,
    LESS,
    LESSEQUAL,
    IDENTIFIER(Seq<char>),
    STRING(Seq<char>),
    NUMBER(i64),
    AND,
    CLASS,
    ELSE,
    FALSE,
    FUN,
    FOR,
    IF,
    NIL,
    OR,
    PRINT,
    RETURN,
    SUPER,
    THIS,
    TRUE,
    VAR,
    WHILE,
    EOF,
}

impl Clone for TokenType {
    fn clone(&self) -> (res: Self)
        ensures
            res == *self,
    {
        match self {
            TokenType::LEFTPAREN => TokenType::LEFTPAREN,
            TokenType::RIGHTPAREN => TokenType::RIGHTPAREN,
            TokenType::LEFTBRACE => TokenType::LEFTBRACE,
            TokenType::RIGHTBRACE => TokenType::RIGHTBRACE,
            TokenType::COMMA => TokenType::COMMA,
            TokenType::DOT => TokenType::DOT,
            TokenType::MINUS => TokenType::MINUS,
            TokenType::PLUS => TokenType::PLUS,
            TokenType::SEMICOLON => TokenType::SEMICOLON,
            TokenType::SLASH => TokenType::SLASH,
            TokenType::STAR => TokenType::STAR,
            TokenType::BANG => TokenType::BANG,
            TokenType::BANGEQUAL => TokenType::BANGEQUAL,
            TokenType::EQUAL => TokenType::EQUAL,
            TokenType::EQUALEQUAL => TokenType::EQUALEQUAL,
            TokenType::GREATER => TokenType::GREATER,
            TokenType::GREATEREQUAL => TokenType::GREATEREQUAL,
            TokenType::LESS => TokenType::LESS,
            TokenType::LESSEQUAL => TokenType::LESSEQUAL,
            TokenType::IDENTIFIER(s) => TokenType::IDENTIFIER(s.clone()),
            TokenType::STRING(s) => TokenType::STRING(s.clone()),
            TokenType::NUMBER(n) => TokenType::NUMBER(*n),
            TokenType::AND => TokenType::AND,
            TokenType::CLASS => TokenType::CLASS,
            TokenType::ELSE => TokenType::ELSE,
            TokenType::FALSE => TokenType::FALSE,
            TokenType::FUN => TokenType::FUN,
            TokenType::FOR => TokenType::FOR,
            TokenType::IF => TokenType::IF,
            TokenType::NIL => TokenType::NIL,
            TokenType::OR => TokenType::OR,
            TokenType::PRINT => TokenType::PRINT,
            TokenType::RETURN => TokenType::RETURN,
            TokenType::SUPER => TokenType::SUPER,
            TokenType::THIS => TokenType::THIS,
            TokenType::TRUE => TokenType::TRUE,
            TokenType::VAR => TokenType::VAR,
            TokenType::WHILE => TokenType::WHILE,
            TokenType::EOF => TokenType::EOF,
        }
    }
}

impl View for TokenType {
    type V = TokenTypeV;

    open spec fn view(&self) -> TokenTypeV {
        match self {
            TokenType::LEFTPAREN => TokenTypeV::LEFTPAREN,
            TokenType::RIGHTPAREN => TokenTypeV::RIGHTPAREN,
            TokenType::LEFTBRACE => TokenTypeV::LEFTBRACE,
            TokenType::RIGHTBRACE => TokenTypeV::RIGHTBRACE,
            TokenType::COMMA => TokenTypeV::COMMA,
            TokenType::DOT => TokenTypeV::DOT,
            TokenType::MINUS => TokenTypeV::MINUS,
            TokenType::PLUS => TokenTypeV::PLUS,
            TokenType::SEMICOLON => TokenTypeV::SEMICOLON,
            TokenType::SLASH => TokenTypeV::SLASH,
            TokenType::STAR => TokenTypeV::STAR,
            TokenType::BANG => TokenTypeV::BANG,
            TokenType::BANGEQUAL => TokenTypeV::BANGEQUAL,
            TokenType::EQUAL => TokenTypeV::EQUAL,
            TokenType::EQUALEQUAL => TokenTypeV::EQUALEQUAL,
            TokenType::GREATER => TokenTypeV::GREATER,
            TokenType::GREATEREQUAL => TokenTypeV::GREATEREQUAL,
            TokenType::LESS => TokenTypeV::LESS,
            TokenType::LESSEQUAL => TokenTypeV::LESSEQUAL,
            TokenType::IDENTIFIER(s) => TokenTypeV::IDENTIFIER(s@),
            TokenType::STRING(s) => TokenTypeV::STRING(s@),
            TokenType::NUMBER(n) => TokenTypeV::NUMBER(*n),
            TokenType::AND => TokenTypeV::AND,
            TokenType::CLASS => TokenTypeV::CLASS,
            TokenType::ELSE => TokenTypeV::ELSE,
            TokenType::FALSE => TokenTypeV::FALSE,
            TokenType::FUN => TokenTypeV::FUN,
            TokenType::FOR => TokenTypeV::FOR,
            TokenType::IF => TokenTypeV::IF,
            TokenType::NIL => TokenTypeV::NIL,
            TokenType::OR => TokenTypeV::OR,
            TokenType::PRINT => TokenTypeV::PRINT,
            TokenType::RETURN => TokenTypeV::RETURN,
            TokenType::SUPER => TokenTypeV::SUPER,
            TokenType::THIS => TokenTypeV::THIS,
            TokenType::TRUE => TokenTypeV::TRUE,
            TokenType::VAR => TokenTypeV::VAR,
            TokenType::WHILE => TokenTypeV::WHILE,
            TokenType::EOF => TokenTypeV::EOF,
        }
    }
}

/// Whether two token categories agree when literal payloads are ignored,
/// so that an identifier token matches any identifier token and so on.
pub open spec fn same_kind(a: TokenTypeV, b: TokenTypeV) -> bool {
    match (a, b) {
        (TokenTypeV::LEFTPAREN, TokenTypeV::LEFTPAREN) => true,
        (TokenTypeV::RIGHTPAREN, TokenTypeV::RIGHTPAREN) => true,
        (TokenTypeV::LEFTBRACE, TokenTypeV::LEFTBRACE) => true,
        (TokenTypeV::RIGHTBRACE, TokenTypeV::RIGHTBRACE) => true,
        (TokenTypeV::COMMA, TokenTypeV::COMMA) => true,
        (TokenTypeV::DOT, TokenTypeV::DOT) => true,
        (TokenTypeV::MINUS, TokenTypeV::MINUS) => true,
        (TokenTypeV::PLUS, TokenTypeV::PLUS) => true,
        (TokenTypeV::SEMICOLON, TokenTypeV::SEMICOLON) => true,
        (TokenTypeV::SLASH, TokenTypeV::SLASH) => true,
        (TokenTypeV::STAR, TokenTypeV::STAR) => true,
        (TokenTypeV::BANG, TokenTypeV::BANG) => true,
        (TokenTypeV::BANGEQUAL, TokenTypeV::BANGEQUAL) => true,
        (TokenTypeV::EQUAL, TokenTypeV::EQUAL) => true,
        (TokenTypeV::EQUALEQUAL, TokenTypeV::EQUALEQUAL) => true,
        (TokenTypeV::GREATER, TokenTypeV::GREATER) => true,
        (TokenTypeV::GREATEREQUAL, TokenTypeV::GREATEREQUAL) => true,
        (TokenTypeV::LESS, TokenTypeV::LESS) => true,
        (TokenTypeV::LESSEQUAL, TokenTypeV::LESSEQUAL) => true,
        (TokenTypeV::IDENTIFIER(_), TokenTypeV::IDENTIFIER(_)) => true,
        (TokenTypeV::STRING(_), TokenTypeV::STRING(_)) => true,
        (TokenTypeV::NUMBER(_), TokenTypeV::NUMBER(_)) => true,
        (TokenTypeV::AND, TokenTypeV::AND) => true,
        (TokenTypeV::CLASS, TokenTypeV::CLASS) => true,
        (TokenTypeV::ELSE, TokenTypeV::ELSE) => true,
        (TokenTypeV::FALSE, TokenTypeV::FALSE) => true,
        (TokenTypeV::FUN, TokenTypeV::FUN) => true,
        (TokenTypeV::FOR, TokenTypeV::FOR) => true,
        (TokenTypeV::IF, TokenTypeV::IF) => true,
        (TokenTypeV::NIL, TokenTypeV::NIL) => true,
        (TokenTypeV::OR, TokenTypeV::OR) => true,
        (TokenTypeV::PRINT, TokenTypeV::PRINT) => true,
        (TokenTypeV::RETURN, TokenTypeV::RETURN) => true,
        (TokenTypeV::SUPER, TokenTypeV::SUPER) => true,
        (TokenTypeV::THIS, TokenTypeV::THIS) => true,
        (TokenTypeV::TRUE, TokenTypeV::TRUE) => true,
        (TokenTypeV::VAR, TokenTypeV::VAR) => true,
        (TokenTypeV::WHILE, TokenTypeV::WHILE) => true,
        (TokenTypeV::EOF, TokenTypeV::EOF) => true,
        _ => false,
    }
}

impl TokenType {
    /// Payload-insensitive comparison of token categories: the parser checks
    /// the category of the token it expects and ignores the literal inside.
    pub fn week_comparison(&self, other: &TokenType) -> (r: bool)
        ensures
            r == same_kind(self@, other@),
    {
        match (self, other) {
            (TokenType::LEFTPAREN, TokenType::LEFTPAREN) => true,
            (TokenType::RIGHTPAREN, TokenType::RIGHTPAREN) => true,
            (TokenType::LEFTBRACE, TokenType::LEFTBRACE) => true,
            (TokenType::RIGHTBRACE, TokenType::RIGHTBRACE) => true,
            (TokenType::COMMA, TokenType::COMMA) => true,
            (TokenType::DOT, TokenType::DOT) => true,
            (TokenType::MINUS, TokenType::MINUS) => true,
            (TokenType::PLUS, TokenType::PLUS) => true,
            (TokenType::SEMICOLON, TokenType::SEMICOLON) => true,
            (TokenType::SLASH, TokenType::SLASH) => true,
            (TokenType::STAR, TokenType::STAR) => true,
            (TokenType::BANG, TokenType::BANG) => true,
            (TokenType::BANGEQUAL, TokenType::BANGEQUAL) => true,
            (TokenType::EQUAL, TokenType::EQUAL) => true,
            (TokenType::EQUALEQUAL, TokenType::EQUALEQUAL) => true,
            (TokenType::GREATER, TokenType::GREATER) => true,
            (TokenType::GREATEREQUAL, TokenType::GREATEREQUAL) => true,
            (TokenType::LESS, TokenType::LESS) => true,
            (TokenType::LESSEQUAL, TokenType::LESSEQUAL) => true,
            (TokenType::IDENTIFIER(_), TokenType::IDENTIFIER(_)) => true,
            (TokenType::STRING(_), TokenType::STRING(_)) => true,
            (TokenType::NUMBER(_), TokenType::NUMBER(_)) => true,
            (TokenType::AND, TokenType::AND) => true,
            (TokenType::CLASS, TokenType::CLASS) => true,
            (TokenType::ELSE, TokenType::ELSE) => true,
            (TokenType::FALSE, TokenType::FALSE) => true,
            (TokenType::FUN, TokenType::FUN) => true,
            (TokenType::FOR, TokenType::FOR) => true,
            (TokenType::IF, TokenType::IF) => true,
            (TokenType::NIL, TokenType::NIL) => true,
            (TokenType::OR, TokenType::OR) => true,
            (TokenType::PRINT, TokenType::PRINT) => true,
            (TokenType::RETURN, TokenType::RETURN) => true,
            (TokenType::SUPER, TokenType::SUPER) => true,
            (TokenType::THIS, TokenType::THIS) => true,
            (TokenType::TRUE, TokenType::TRUE) => true,
            (TokenType::VAR, TokenType::VAR) => true,
            (TokenType::WHILE, TokenType::WHILE) => true,
            (TokenType::EOF, TokenType::EOF) => true,
            _ => false,
        }
    }
}

/// One lexical unit: its category (with payload), the source substring it
/// was produced from, and the line it appears on (the first line is 0).
#[derive(Debug, PartialEq)]
pub struct Token {
    pub token_type: TokenType,
    pub lexeme: String,
    pub line: usize,
}

impl Clone for Token {
    fn clone(&self) -> (res: Self)
        ensures
            res == *self,
    {
        Token {
            token_type: self.token_type.clone(),
            lexeme: self.lexeme.clone(),
            line: self.line,
        }
    }
}

/// Mathematical model of a `Token`.
pub struct TokenV {
    pub token_type: TokenTypeV,
    pub lexeme: Seq<char>,
    pub line: nat,
}

impl View for Token {
    type V = TokenV;

    open spec fn view(&self) -> TokenV {
        TokenV { token_type: self.token_type@, lexeme: self.lexeme@, line: self.line as nat }
    }
}

impl Token {
    pub fn new(token_type: TokenType, lexeme: String, line: usize) -> (t: Token)
        ensures
            t@ == (TokenV { token_type: token_type@, lexeme: lexeme@, line: line as nat }),
    {
        Token { token_type, lexeme, line }
    }
}

/// The models of a token list, in order.
pub open spec fn toks_of(tokens: Seq<Token>) -> Seq<TokenV> {
    Seq::new(tokens.len(), |i: int| tokens[i]@)
}

} // verus!
