use vstd::prelude::*;
use vstd::string::StringExecFns;
use crate::expr::{Expr, ExprV};
use crate::stmt::{program_view, Stmt, StmtV};
use crate::token::{same_kind, toks_of, Token, TokenType, TokenTypeV, TokenV};

verus! {

/// A syntax error: a token other than the one the grammar requires, or an
/// assignment whose left side is not a bare variable.
#[derive(Debug)]
pub enum ParserError {
    UnexpectedToken(String),
    NonValidAssignmentTarget,
}

/// Mathematical model of a `ParserError`: the category alone.
pub enum PErrV {
    UnexpectedToken,
    NonValidAssignmentTarget,
}

impl View for ParserError {
    type V = PErrV;

    open spec fn view(&self) -> PErrV {
        match self {
            ParserError::UnexpectedToken(_) => PErrV::UnexpectedToken,
            ParserError::NonValidAssignmentTarget => PErrV::NonValidAssignmentTarget,
        }
    }
}

pub type ExprParserResult = Result<Expr, ParserError>;

pub type StmtParserResult = Result<Stmt, ParserError>;

/// Whether the parser has no more input to consume: past the last token, or
/// at the end marker.
pub open spec fn p_at_end(ts: Seq<TokenV>, i: int) -> bool {
    i >= ts.len() || ts[i].token_type is EOF
}

/// The category of the token at a position.
pub open spec fn tok_at(ts: Seq<TokenV>, i: int) -> TokenTypeV
    recommends
        0 <= i < ts.len(),
{
    ts[i].token_type
}

/// Whether a rule starting at `i` may continue at `j`: rules only ever move
/// forward and never past the end. The parsing functions check this bound on
/// every recursive step; the executable parser proves it always holds.
pub open spec fn p_step(ts: Seq<TokenV>, i: int, j: int) -> bool {
    i < j <= ts.len()
}

/// `primary := NUMBER | STRING | "true" | "false" | "nil" | IDENTIFIER
///  | "(" expression ")"`.
#[verifier::opaque]
pub open spec fn p_primary(ts: Seq<TokenV>, i: int) -> Result<(ExprV, int), PErrV>
    decreases ts.len() - i, 3int,
{
    if i < 0 || i >= ts.len() {
        Err(PErrV::UnexpectedToken)
    } else {
        match tok_at(ts, i) {
            TokenTypeV::TRUE => Ok((ExprV::Boolean(true), i + 1)),
            TokenTypeV::FALSE => Ok((ExprV::Boolean(false), i + 1)),
            TokenTypeV::NIL => Ok((ExprV::Nil, i + 1)),
            TokenTypeV::NUMBER(n) => Ok((ExprV::NumberLit(n), i + 1)),
            TokenTypeV::STRING(s) => Ok((ExprV::StringLit(s), i + 1)),
            TokenTypeV::IDENTIFIER(s) => Ok((ExprV::Variable(s), i + 1)),
            TokenTypeV::LEFTPAREN => match p_expression(ts, i + 1) {
                Ok((e, j)) => if p_step(ts, i + 1, j) && j < ts.len() && tok_at(ts, j)
                    is RIGHTPAREN {
                    Ok((ExprV::Grouping(Box::new(e)), j + 1))
                } else {
                    Err(PErrV::UnexpectedToken)
                },
                Err(pe) => Err(pe),
            },
            _ => Err(PErrV::UnexpectedToken),
        }
    }
}

/// `unary := ("!" | "-") unary | primary`.
#[verifier::opaque]
pub open spec fn p_unary(ts: Seq<TokenV>, i: int) -> Result<(ExprV, int), PErrV>
    decreases ts.len() - i, 4int,
{
    if i < 0 || i >= ts.len() {
        Err(PErrV::UnexpectedToken)
    } else if tok_at(ts, i) is BANG || tok_at(ts, i) is MINUS {
        match p_unary(ts, i + 1) {
            Ok((e, j)) => Ok((ExprV::Unary(ts[i], Box::new(e)), j)),
            Err(pe) => Err(pe),
        }
    } else {
        p_primary(ts, i)
    }
}

/// Whether the token continues a `factor` (`/` or `*`).
pub open spec fn is_factor_op(t: TokenTypeV) -> bool {
    t is SLASH || t is STAR
}

/// Whether the token continues a `term` (`-` or `+`).
pub open spec fn is_term_op(t: TokenTypeV) -> bool {
    t is MINUS || t is PLUS
}

/// Whether the token continues a `comparison`.
pub open spec fn is_comparison_op(t: TokenTypeV) -> bool {
    t is GREATER || t is GREATEREQUAL || t is LESS || t is LESSEQUAL
}

/// Whether the token continues an `equality`.
pub open spec fn is_equality_op(t: TokenTypeV) -> bool {
    t is BANGEQUAL || t is EQUALEQUAL
}

/// `factor := unary (("/" | "*") unary)*`, folded to the left.
#[verifier::opaque]
pub open spec fn p_factor(ts: Seq<TokenV>, i: int) -> Result<(ExprV, int), PErrV>
    decreases ts.len() - i, 5int,
{
    match p_unary(ts, i) {
        Ok((l, j)) => if p_step(ts, i, j) {
            p_factor_tail(ts, j, l)
        } else {
            Err(PErrV::UnexpectedToken)
        },
        Err(pe) => Err(pe),
    }
}

/// The left-folding loop of `factor`.
#[verifier::opaque]
pub open spec fn p_factor_tail(ts: Seq<TokenV>, i: int, l: ExprV) -> Result<(ExprV, int), PErrV>
    decreases ts.len() - i, 0int,
{
    if i < 0 || i >= ts.len() {
        Err(PErrV::UnexpectedToken)
    } else if is_factor_op(tok_at(ts, i)) {
        match p_unary(ts, i + 1) {
            Ok((r, j)) => if p_step(ts, i + 1, j) {
                p_factor_tail(ts, j, ExprV::Binary(Box::new(l), ts[i], Box::new(r)))
            } else {
                Err(PErrV::UnexpectedToken)
            },
            Err(pe) => Err(pe),
        }
    } else {
        Ok((l, i))
    }
}

/// `term := factor (("-" | "+") factor)*`, folded to the left.
#[verifier::opaque]
pub open spec fn p_term(ts: Seq<TokenV>, i: int) -> Result<(ExprV, int), PErrV>
    decreases ts.len() - i, 6int,
{
    match p_factor(ts, i) {
        Ok((l, j)) => if p_step(ts, i, j) {
            p_term_tail(ts, j, l)
        } else {
            Err(PErrV::UnexpectedToken)
        },
        Err(pe) => Err(pe),
    }
}

/// The left-folding loop of `term`.
#[verifier::opaque]
pub open spec fn p_term_tail(ts: Seq<TokenV>, i: int, l: ExprV) -> Result<(ExprV, int), PErrV>
    decreases ts.len() - i, 0int,
{
    if i < 0 || i >= ts.len() {
        Err(PErrV::UnexpectedToken)
    } else if is_term_op(tok_at(ts, i)) {
        match p_factor(ts, i + 1) {
            Ok((r, j)) => if p_step(ts, i + 1, j) {
                p_term_tail(ts, j, ExprV::Binary(Box::new(l), ts[i], Box::new(r)))
            } else {
                Err(PErrV::UnexpectedToken)
            },
            Err(pe) => Err(pe),
        }
    } else {
        Ok((l, i))
    }
}

/// `comparison := term ((">" | ">=" | "<" | "<=") term)*`, folded left.
#[verifier::opaque]
pub open spec fn p_comparison(ts: Seq<TokenV>, i: int) -> Result<(ExprV, int), PErrV>
    decreases ts.len() - i, 7int,
{
    match p_term(ts, i) {
        Ok((l, j)) => if p_step(ts, i, j) {
            p_comparison_tail(ts, j, l)
        } else {
            Err(PErrV::UnexpectedToken)
        },
        Err(pe) => Err(pe),
    }
}

/// The left-folding loop of `comparison`.
#[verifier::opaque]
pub open spec fn p_comparison_tail(ts: Seq<TokenV>, i: int, l: ExprV) -> Result<
    (ExprV, int),
    PErrV,
>
    decreases ts.len() - i, 0int,
{
    if i < 0 || i >= ts.len() {
        Err(PErrV::UnexpectedToken)
    } else if is_comparison_op(tok_at(ts, i)) {
        match p_term(ts, i + 1) {
            Ok((r, j)) => if p_step(ts, i + 1, j) {
                p_comparison_tail(ts, j, ExprV::Binary(Box::new(l), ts[i], Box::new(r)))
            } else {
                Err(PErrV::UnexpectedToken)
            },
            Err(pe) => Err(pe),
        }
    } else {
        Ok((l, i))
    }
}

/// `equality := comparison (("!=" | "==") comparison)*`, folded left.
#[verifier::opaque]
pub open spec fn p_equality(ts: Seq<TokenV>, i: int) -> Result<(ExprV, int), PErrV>
    decreases ts.len() - i, 8int,
{
    match p_comparison(ts, i) {
        Ok((l, j)) => if p_step(ts, i, j) {
            p_equality_tail(ts, j, l)
        } else {
            Err(PErrV::UnexpectedToken)
        },
        Err(pe) => Err(pe),
    }
}

/// The left-folding loop of `equality`.
#[verifier::opaque]
pub open spec fn p_equality_tail(ts: Seq<TokenV>, i: int, l: ExprV) -> Result<(ExprV, int), PErrV>
    decreases ts.len() - i, 0int,
{
    if i < 0 || i >= ts.len() {
        Err(PErrV::UnexpectedToken)
    } else if is_equality_op(tok_at(ts, i)) {
        match p_comparison(ts, i + 1) {
            Ok((r, j)) => if p_step(ts, i + 1, j) {
                p_equality_tail(ts, j, ExprV::Binary(Box::new(l), ts[i], Box::new(r)))
            } else {
                Err(PErrV::UnexpectedToken)
            },
            Err(pe) => Err(pe),
        }
    } else {
        Ok((l, i))
    }
}

/// `logic_and := equality ("and" equality)*`, folded left.
#[verifier::opaque]
pub open spec fn p_logic_and(ts: Seq<TokenV>, i: int) -> Result<(ExprV, int), PErrV>
    decreases ts.len() - i, 9int,
{
    match p_equality(ts, i) {
        Ok((l, j)) => if p_step(ts, i, j) {
            p_logic_and_tail(ts, j, l)
        } else {
            Err(PErrV::UnexpectedToken)
        },
        Err(pe) => Err(pe),
    }
}

/// The left-folding loop of `logic_and`.
#[verifier::opaque]
pub open spec fn p_logic_and_tail(ts: Seq<TokenV>, i: int, l: ExprV) -> Result<(ExprV, int), PErrV>
    decreases ts.len() - i, 0int,
{
    if i < 0 || i >= ts.len() {
        Err(PErrV::UnexpectedToken)
    } else if tok_at(ts, i) is AND {
        match p_equality(ts, i + 1) {
            Ok((r, j)) => if p_step(ts, i + 1, j) {
                p_logic_and_tail(ts, j, ExprV::Logical(Box::new(l), ts[i], Box::new(r)))
            } else {
                Err(PErrV::UnexpectedToken)
            },
            Err(pe) => Err(pe),
        }
    } else {
        Ok((l, i))
    }
}

/// `logic_or := logic_and ("or" logic_and)*`, folded left.
#[verifier::opaque]
pub open spec fn p_logic_or(ts: Seq<TokenV>, i: int) -> Result<(ExprV, int), PErrV>
    decreases ts.len() - i, 10int,
{
    match p_logic_and(ts, i) {
        Ok((l, j)) => if p_step(ts, i, j) {
            p_logic_or_tail(ts, j, l)
        } else {
            Err(PErrV::UnexpectedToken)
        },
        Err(pe) => Err(pe),
    }
}

/// The left-folding loop of `logic_or`.
#[verifier::opaque]
pub open spec fn p_logic_or_tail(ts: Seq<TokenV>, i: int, l: ExprV) -> Result<(ExprV, int), PErrV>
    decreases ts.len() - i, 0int,
{
    if i < 0 || i >= ts.len() {
        Err(PErrV::UnexpectedToken)
    } else if tok_at(ts, i) is OR {
        match p_logic_and(ts, i + 1) {
            Ok((r, j)) => if p_step(ts, i + 1, j) {
                p_logic_or_tail(ts, j, ExprV::Logical(Box::new(l), ts[i], Box::new(r)))
            } else {
                Err(PErrV::UnexpectedToken)
            },
            Err(pe) => Err(pe),
        }
    } else {
        Ok((l, i))
    }
}

/// `assignment := IDENTIFIER "=" assignment | logic_or`. The left side is
/// parsed as an ordinary expression first; if an `=` follows, that left side
/// must have been a bare variable.
#[verifier::opaque]
pub open spec fn p_assignment(ts: Seq<TokenV>, i: int) -> Result<(ExprV, int), PErrV>
    decreases ts.len() - i, 11int,
{
    match p_logic_or(ts, i) {
        Ok((l, j)) => if p_step(ts, i, j) {
            if j < ts.len() && tok_at(ts, j) is EQUAL {
                match p_assignment(ts, j + 1) {
                    Ok((v, k)) => match l {
                        ExprV::Variable(name) => Ok(
                            (ExprV::Assignment(name, Box::new(v)), k),
                        ),
                        _ => Err(PErrV::NonValidAssignmentTarget),
                    },
                    Err(pe) => Err(pe),
                }
            } else {
                Ok((l, j))
            }
        } else {
            Err(PErrV::UnexpectedToken)
        },
        Err(pe) => Err(pe),
    }
}

/// `expression := assignment`.
#[verifier::opaque]
pub open spec fn p_expression(ts: Seq<TokenV>, i: int) -> Result<(ExprV, int), PErrV>
    decreases ts.len() - i, 12int,
{
    p_assignment(ts, i)
}

/// `varDecl := "var" IDENTIFIER ("=" expression)? ";"`. The statement keeps
/// the identifier token.
#[verifier::opaque]
pub open spec fn p_var_decl(ts: Seq<TokenV>, i: int) -> Result<(StmtV, int), PErrV>
    decreases ts.len() - i, 18int,
{
    if !(0 <= i && i < ts.len() && tok_at(ts, i) is VAR) {
        Err(PErrV::UnexpectedToken)
    } else if !(i + 1 < ts.len() && tok_at(ts, i + 1) is IDENTIFIER) {
        Err(PErrV::UnexpectedToken)
    } else {
        let name = ts[i + 1];
        if i + 2 < ts.len() && tok_at(ts, i + 2) is EQUAL {
            match p_expression(ts, i + 3) {
                Ok((e, j)) => if p_step(ts, i + 3, j) && j < ts.len() && tok_at(ts, j)
                    is SEMICOLON {
                    Ok((StmtV::VAR(name, Some(Box::new(e))), j + 1))
                } else {
                    Err(PErrV::UnexpectedToken)
                },
                Err(pe) => Err(pe),
            }
        } else if i + 2 < ts.len() && tok_at(ts, i + 2) is SEMICOLON {
            Ok((StmtV::VAR(name, None), i + 3))
        } else {
            Err(PErrV::UnexpectedToken)
        }
    }
}

/// `printStmt := "print" expression ";"`.
#[verifier::opaque]
pub open spec fn p_print_stmt(ts: Seq<TokenV>, i: int) -> Result<(StmtV, int), PErrV>
    decreases ts.len() - i, 18int,
{
    match p_expression(ts, i + 1) {
        Ok((e, j)) => if p_step(ts, i + 1, j) && j < ts.len() && tok_at(ts, j) is SEMICOLON {
            Ok((StmtV::PRINT(Box::new(e)), j + 1))
        } else {
            Err(PErrV::UnexpectedToken)
        },
        Err(pe) => Err(pe),
    }
}

/// `exprStmt := expression ";"`.
#[verifier::opaque]
pub open spec fn p_expr_stmt(ts: Seq<TokenV>, i: int) -> Result<(StmtV, int), PErrV>
    decreases ts.len() - i, 18int,
{
    match p_expression(ts, i) {
        Ok((e, j)) => if p_step(ts, i, j) && j < ts.len() && tok_at(ts, j) is SEMICOLON {
            Ok((StmtV::EXPR(Box::new(e)), j + 1))
        } else {
            Err(PErrV::UnexpectedToken)
        },
        Err(pe) => Err(pe),
    }
}

/// `block := "{" declaration* "}"`. Reaching the end of input before the
/// closing brace is a parse error.
#[verifier::opaque]
pub open spec fn p_block(ts: Seq<TokenV>, i: int) -> Result<(StmtV, int), PErrV>
    decreases ts.len() - i, 18int,
{
    if 0 <= i && i < ts.len() && tok_at(ts, i) is LEFTBRACE {
        match p_block_items(ts, i + 1) {
            Ok((items, j)) => Ok((StmtV::BLOCK(items), j)),
            Err(pe) => Err(pe),
        }
    } else {
        Err(PErrV::UnexpectedToken)
    }
}

/// The declarations between a block's braces, ending when the closing brace
/// is consumed.
#[verifier::opaque]
pub open spec fn p_block_items(ts: Seq<TokenV>, i: int) -> Result<(Seq<StmtV>, int), PErrV>
    decreases ts.len() - i, 21int,
{
    if p_at_end(ts, i) {
        Err(PErrV::UnexpectedToken)
    } else if tok_at(ts, i) is RIGHTBRACE {
        Ok((Seq::empty(), i + 1))
    } else {
        match p_declaration(ts, i) {
            Ok((s, j)) => if p_step(ts, i, j) {
                match p_block_items(ts, j) {
                    Ok((rest, k)) => Ok((seq![s] + rest, k)),
                    Err(pe) => Err(pe),
                }
            } else {
                Err(PErrV::UnexpectedToken)
            },
            Err(pe) => Err(pe),
        }
    }
}

/// `ifStmt := "if" "(" expression ")" block ("else" block)?`.
#[verifier::opaque]
pub open spec fn p_if_stmt(ts: Seq<TokenV>, i: int) -> Result<(StmtV, int), PErrV>
    decreases ts.len() - i, 18int,
{
    if !(i + 1 < ts.len() && tok_at(ts, i + 1) is LEFTPAREN) {
        Err(PErrV::UnexpectedToken)
    } else {
        match p_expression(ts, i + 2) {
            Ok((cond, j)) => if p_step(ts, i + 2, j) && j < ts.len() && tok_at(ts, j)
                is RIGHTPAREN {
                match p_block(ts, j + 1) {
                    Ok((blk, k)) => if p_step(ts, j + 1, k) {
                        if k < ts.len() && tok_at(ts, k) is ELSE {
                            match p_block(ts, k + 1) {
                                Ok((els, m)) => Ok(
                                    (
                                        StmtV::IF(
                                            Box::new(cond),
                                            Box::new(blk),
                                            Some(Box::new(els)),
                                        ),
                                        m,
                                    ),
                                ),
                                Err(pe) => Err(pe),
                            }
                        } else {
                            Ok((StmtV::IF(Box::new(cond), Box::new(blk), None), k))
                        }
                    } else {
                        Err(PErrV::UnexpectedToken)
                    },
                    Err(pe) => Err(pe),
                }
            } else {
                Err(PErrV::UnexpectedToken)
            },
            Err(pe) => Err(pe),
        }
    }
}

/// `whileStmt := "while" "(" expression ")" block`.
#[verifier::opaque]
pub open spec fn p_while_stmt(ts: Seq<TokenV>, i: int) -> Result<(StmtV, int), PErrV>
    decreases ts.len() - i, 18int,
{
    if !(i + 1 < ts.len() && tok_at(ts, i + 1) is LEFTPAREN) {
        Err(PErrV::UnexpectedToken)
    } else {
        match p_expression(ts, i + 2) {
            Ok((cond, j)) => if p_step(ts, i + 2, j) && j < ts.len() && tok_at(ts, j)
                is RIGHTPAREN {
                match p_block(ts, j + 1) {
                    Ok((body, k)) => Ok((StmtV::WHILE(Box::new(cond), Box::new(body)), k)),
                    Err(pe) => Err(pe),
                }
            } else {
                Err(PErrV::UnexpectedToken)
            },
            Err(pe) => Err(pe),
        }
    }
}

/// `statement := printStmt | ifStmt | whileStmt | block | exprStmt`.
#[verifier::opaque]
pub open spec fn p_statement(ts: Seq<TokenV>, i: int) -> Result<(StmtV, int), PErrV>
    decreases ts.len() - i, 19int,
{
    if i < 0 || i >= ts.len() {
        Err(PErrV::UnexpectedToken)
    } else {
        match tok_at(ts, i) {
            TokenTypeV::PRINT => p_print_stmt(ts, i),
            TokenTypeV::LEFTBRACE => p_block(ts, i),
            TokenTypeV::IF => p_if_stmt(ts, i),
            TokenTypeV::WHILE => p_while_stmt(ts, i),
            _ => p_expr_stmt(ts, i),
        }
    }
}

/// `declaration := varDecl | statement`.
#[verifier::opaque]
pub open spec fn p_declaration(ts: Seq<TokenV>, i: int) -> Result<(StmtV, int), PErrV>
    decreases ts.len() - i, 20int,
{
    if i < 0 || i >= ts.len() {
        Err(PErrV::UnexpectedToken)
    } else if tok_at(ts, i) is VAR {
        p_var_decl(ts, i)
    } else {
        p_statement(ts, i)
    }
}

/// `program := declaration* EOF`: declarations until the end marker.
#[verifier::opaque]
pub open spec fn p_program(ts: Seq<TokenV>, i: int) -> Result<Seq<StmtV>, PErrV>
    decreases ts.len() - i, 21int,
{
    if p_at_end(ts, i) {
        Ok(Seq::empty())
    } else {
        match p_declaration(ts, i) {
            Ok((s, j)) => if p_step(ts, i, j) {
                match p_program(ts, j) {
                    Ok(rest) => Ok(seq![s] + rest),
                    Err(pe) => Err(pe),
                }
            } else {
                Err(PErrV::UnexpectedToken)
            },
            Err(pe) => Err(pe),
        }
    }
}

fn unexpected(what: &str) -> (r: ParserError)
    ensures
        r@ == PErrV::UnexpectedToken,
{
    ParserError::UnexpectedToken(String::from_str(what))
}

/// The recursive-descent parser: it borrows the token list and walks it left
/// to right, one grammar rule per method. The first syntax error aborts the
/// whole parse.
pub struct Parser<'a> {
    pub tokens: &'a Vec<Token>,
    pub current: usize,
}

impl<'a> Parser<'a> {
    /// The models of the borrowed tokens.
    pub open spec fn toks(&self) -> Seq<TokenV> {
        toks_of(self.tokens@)
    }

    /// The cursor never passes one position past the last token.
    pub open spec fn wf(&self) -> bool {
        self.current <= self.tokens@.len()
    }

    pub fn new(tokens: &'a Vec<Token>) -> (p: Parser<'a>)
        ensures
            p.wf(),
            p.tokens == tokens,
            p.current == 0,
    {
        Parser { tokens, current: 0 }
    }

    /// The token just before the cursor, if the cursor has moved at all.
    pub fn previous(&mut self) -> (r: Option<&'a Token>)
        ensures
            *final(self) == *old(self),
            match r {
                Some(t) => 1 <= old(self).current && old(self).current <= old(
                    self,
                ).tokens@.len() && *t == old(self).tokens@[old(self).current - 1],
                None => old(self).current == 0 || old(self).current > old(self).tokens@.len(),
            },
    {
        let toks: &'a Vec<Token> = self.tokens;
        if self.current >= 1 && self.current <= toks.len() {
            Some(&toks[self.current - 1])
        } else {
            None
        }
    }

    /// The token under the cursor, or nothing past the end.
    pub fn current_token(&self) -> (r: Option<&'a Token>)
        ensures
            match r {
                Some(t) => self.current < self.tokens@.len() && *t == self.tokens@[self.current as int],
                None => self.current >= self.tokens@.len(),
            },
    {
        let toks: &'a Vec<Token> = self.tokens;
        if self.current < toks.len() {
            Some(&toks[self.current])
        } else {
            None
        }
    }

    /// Moves the cursor one token forward and returns the token now under
    /// it, if any.
    pub fn advance(&mut self) -> (r: Option<&'a Token>)
        requires
            old(self).wf(),
            old(self).current < old(self).tokens@.len(),
        ensures
            final(self).wf(),
            final(self).tokens == old(self).tokens,
            final(self).current == old(self).current + 1,
            match r {
                Some(t) => old(self).current + 1 < old(self).tokens@.len() && *t == old(
                    self,
                ).tokens@[old(self).current + 1],
                None => old(self).current + 1 >= old(self).tokens@.len(),
            },
    {
        let toks: &'a Vec<Token> = self.tokens;
        let n = toks.len();
        self.current = self.current + 1;
        if self.current < n {
            Some(&toks[self.current])
        } else {
            None
        }
    }

    /// Returns the token under the cursor and moves past it.
    pub fn get_current_and_advance(&mut self) -> (r: Option<&'a Token>)
        requires
            old(self).wf(),
            old(self).current < old(self).tokens@.len(),
        ensures
            final(self).wf(),
            final(self).tokens == old(self).tokens,
            final(self).current == old(self).current + 1,
            r matches Some(t) && *t == old(self).tokens@[old(self).current as int],
    {
        let _ = self.advance();
        self.previous()
    }

    /// Consumes the token under the cursor when its category matches,
    /// ignoring any literal payload; reports whether it did.
    pub fn consume(&mut self, tt: TokenType) -> (r: bool)
        requires
            old(self).wf(),
        ensures
            final(self).wf(),
            final(self).tokens == old(self).tokens,
            if old(self).current < old(self).tokens@.len() && same_kind(
                old(self).toks()[old(self).current as int].token_type,
                tt@,
            ) {
                r && final(self).current == old(self).current + 1
            } else {
                !r && final(self).current == old(self).current
            },
    {
        if self.current < self.tokens.len() {
            if self.tokens[self.current].token_type.week_comparison(&tt) {
                self.current = self.current + 1;
                return true;
            }
        }
        false
    }

    /// Consumes the token under the cursor and hands it back when its
    /// category matches; any other token is a syntax error.
    pub fn consume_advance_return(&mut self, tt: TokenType) -> (r: Result<&'a Token, ParserError>)
        requires
            old(self).wf(),
        ensures
            final(self).wf(),
            final(self).tokens == old(self).tokens,
            match r {
                Ok(t) => {
                    &&& old(self).current < old(self).tokens@.len()
                    &&& same_kind(old(self).toks()[old(self).current as int].token_type, tt@)
                    &&& *t == old(self).tokens@[old(self).current as int]
                    &&& final(self).current == old(self).current + 1
                },
                Err(pe) => {
                    &&& !(old(self).current < old(self).tokens@.len() && same_kind(
                        old(self).toks()[old(self).current as int].token_type,
                        tt@,
                    ))
                    &&& pe@ == PErrV::UnexpectedToken
                    &&& *final(self) == *old(self)
                },
            },
    {
        let toks: &'a Vec<Token> = self.tokens;
        if self.current < toks.len() {
            if toks[self.current].token_type.week_comparison(&tt) {
                let t = &toks[self.current];
                self.current = self.current + 1;
                return Ok(t);
            }
        }
        Err(unexpected("a token of another category was required here"))
    }

    /// Whether the parser has no more input to consume.
    pub fn is_at_end(&self) -> (r: bool)
        ensures
            r == p_at_end(self.toks(), self.current as int),
    {
        if self.current >= self.tokens.len() {
            return true;
        }
        match &self.tokens[self.current].token_type {
            TokenType::EOF => true,
            _ => false,
        }
    }

    /// Parses a `primary`, as `p_primary` describes.
    #[verifier::rlimit(100)]
    #[verifier::spinoff_prover]
    pub fn primary_rule(&mut self) -> (r: ExprParserResult)
        requires
            old(self).wf(),
        ensures
            final(self).wf(),
            final(self).tokens == old(self).tokens,
            match r {
                Ok(e) => ({
                    &&& p_primary(old(self).toks(), old(self).current as int) == Ok::<
                        (ExprV, int),
                        PErrV,
                    >((e@, final(self).current as int))
                    &&& old(self).current < final(self).current
                }),
                Err(pe) => p_primary(old(self).toks(), old(self).current as int) == Err::<
                    (ExprV, int),
                    PErrV,
                >(pe@),
            },
        decreases self.tokens@.len() - self.current, 3int,
    {
        reveal(p_primary);
        let toks: &'a Vec<Token> = self.tokens;
        if self.current >= toks.len() {
            return Err(unexpected("an expression was required here"));
        }
        let t: &'a Token = &toks[self.current];
        match &t.token_type {
            TokenType::TRUE => {
                self.current = self.current + 1;
                Ok(Expr::Boolean(true))
            },
            TokenType::FALSE => {
                self.current = self.current + 1;
                Ok(Expr::Boolean(false))
            },
            TokenType::NIL => {
                self.current = self.current + 1;
                Ok(Expr::Nil)
            },
            TokenType::NUMBER(n) => {
                let v = *n;
                self.current = self.current + 1;
                Ok(Expr::NumberLit(v))
            },
            TokenType::STRING(s) => {
                let sv = s.clone();
                self.current = self.current + 1;
                Ok(Expr::StringLit(Box::new(sv)))
            },
            TokenType::IDENTIFIER(s) => {
                let sv = s.clone();
                self.current = self.current + 1;
                Ok(Expr::Variable(Box::new(sv)))
            },
            TokenType::LEFTPAREN => {
                self.current = self.current + 1;
                let inner = match self.expr_rule() {
                    Ok(e) => e,
                    Err(pe) => {
                        return Err(pe);
                    },
                };
                if !self.consume(TokenType::RIGHTPAREN) {
                    return Err(unexpected("a closing parenthesis was required here"));
                }
                Ok(Expr::Grouping(Box::new(inner)))
            },
            _ => Err(unexpected("an expression was required here")),
        }
    }

    /// Parses a `unary`, as `p_unary` describes.
    #[verifier::rlimit(100)]
    #[verifier::spinoff_prover]
    pub fn unary_rule(&mut self) -> (r: ExprParserResult)
        requires
            old(self).wf(),
        ensures
            final(self).wf(),
            final(self).tokens == old(self).tokens,
            match r {
                Ok(e) => ({
                    &&& p_unary(old(self).toks(), old(self).current as int) == Ok::<
                        (ExprV, int),
                        PErrV,
                    >((e@, final(self).current as int))
                    &&& old(self).current < final(self).current
                }),
                Err(pe) => p_unary(old(self).toks(), old(self).current as int) == Err::<
                    (ExprV, int),
                    PErrV,
                >(pe@),
            },
        decreases self.tokens@.len() - self.current, 4int,
    {
        reveal(p_unary);
        let toks: &'a Vec<Token> = self.tokens;
        if self.current >= toks.len() {
            return Err(unexpected("an expression was required here"));
        }
        let is_prefix = match &toks[self.current].token_type {
            TokenType::BANG => true,
            TokenType::MINUS => true,
            _ => false,
        };
        if is_prefix {
            let operator = toks[self.current].clone();
            self.current = self.current + 1;
            match self.unary_rule() {
                Ok(u) => Ok(Expr::Unary(Box::new(operator), Box::new(u))),
                Err(pe) => Err(pe),
            }
        } else {
            self.primary_rule()
        }
    }

    /// Parses a `factor`, as `p_factor` describes.
    #[verifier::rlimit(100)]
    #[verifier::spinoff_prover]
    pub fn factor_rule(&mut self) -> (r: ExprParserResult)
        requires
            old(self).wf(),
        ensures
            final(self).wf(),
            final(self).tokens == old(self).tokens,
            match r {
                Ok(e) => ({
                    &&& p_factor(old(self).toks(), old(self).current as int) == Ok::<
                        (ExprV, int),
                        PErrV,
                    >((e@, final(self).current as int))
                    &&& old(self).current < final(self).current
                }),
                Err(pe) => p_factor(old(self).toks(), old(self).current as int) == Err::<
                    (ExprV, int),
                    PErrV,
                >(pe@),
            },
        decreases self.tokens@.len() - self.current, 5int,
    {
        reveal(p_factor); reveal(p_factor_tail);
        let ghost ts = self.toks();
        let ghost start = self.current as int;
        let mut e = match self.unary_rule() {
            Ok(e) => e,
            Err(pe) => {
                return Err(pe);
            },
        };
        loop
            invariant
                self.wf(),
                self.tokens == old(self).tokens,
                ts == self.toks(),
                start == old(self).current as int,
                start < self.current as int,
                p_factor(ts, start) == p_factor_tail(ts, self.current as int, e@),
            decreases self.tokens@.len() - self.current,
        {
            reveal(p_factor); reveal(p_factor_tail);
            if self.current >= self.tokens.len() {
                return Err(unexpected("unexpected end of input"));
            }
            let is_op = match &self.tokens[self.current].token_type {
                TokenType::SLASH => true,
                TokenType::STAR => true,
                _ => false,
            };
            if !is_op {
                return Ok(e);
            }
            let operator = self.tokens[self.current].clone();
            self.current = self.current + 1;
            let right = match self.unary_rule() {
                Ok(r) => r,
                Err(pe) => {
                    return Err(pe);
                },
            };
            e = Expr::Binary(Box::new(e), Box::new(operator), Box::new(right));
        }
    }

    /// Parses a `term`, as `p_term` describes.
    #[verifier::rlimit(100)]
    #[verifier::spinoff_prover]
    pub fn term_rule(&mut self) -> (r: ExprParserResult)
        requires
            old(self).wf(),
        ensures
            final(self).wf(),
            final(self).tokens == old(self).tokens,
            match r {
                Ok(e) => ({
                    &&& p_term(old(self).toks(), old(self).current as int) == Ok::<
                        (ExprV, int),
                        PErrV,
                    >((e@, final(self).current as int))
                    &&& old(self).current < final(self).current
                }),
                Err(pe) => p_term(old(self).toks(), old(self).current as int) == Err::<
                    (ExprV, int),
                    PErrV,
                >(pe@),
            },
        decreases self.tokens@.len() - self.current, 6int,
    {
        reveal(p_term); reveal(p_term_tail);
        let ghost ts = self.toks();
        let ghost start = self.current as int;
        let mut e = match self.factor_rule() {
            Ok(e) => e,
            Err(pe) => {
                return Err(pe);
            },
        };
        loop
            invariant
                self.wf(),
                self.tokens == old(self).tokens,
                ts == self.toks(),
                start == old(self).current as int,
                start < self.current as int,
                p_term(ts, start) == p_term_tail(ts, self.current as int, e@),
            decreases self.tokens@.len() - self.current,
        {
            reveal(p_term); reveal(p_term_tail);
            if self.current >= self.tokens.len() {
                return Err(unexpected("unexpected end of input"));
            }
            let is_op = match &self.tokens[self.current].token_type {
                TokenType::MINUS => true,
                TokenType::PLUS => true,
                _ => false,
            };
            if !is_op {
                return Ok(e);
            }
            let operator = self.tokens[self.current].clone();
            self.current = self.current + 1;
            let right = match self.factor_rule() {
                Ok(r) => r,
                Err(pe) => {
                    return Err(pe);
                },
            };
            e = Expr::Binary(Box::new(e), Box::new(operator), Box::new(right));
        }
    }

    /// Parses a `comparison`, as `p_comparison` describes.
    #[verifier::rlimit(100)]
    #[verifier::spinoff_prover]
    pub fn comparison_rule(&mut self) -> (r: ExprParserResult)
        requires
            old(self).wf(),
        ensures
            final(self).wf(),
            final(self).tokens == old(self).tokens,
            match r {
                Ok(e) => ({
                    &&& p_comparison(old(self).toks(), old(self).current as int) == Ok::<
                        (ExprV, int),
                        PErrV,
                    >((e@, final(self).current as int))
                    &&& old(self).current < final(self).current
                }),
                Err(pe) => p_comparison(old(self).toks(), old(self).current as int) == Err::<
                    (ExprV, int),
                    PErrV,
                >(pe@),
            },
        decreases self.tokens@.len() - self.current, 7int,
    {
        reveal(p_comparison); reveal(p_comparison_tail);
        let ghost ts = self.toks();
        let ghost start = self.current as int;
        let mut e = match self.term_rule() {
            Ok(e) => e,
            Err(pe) => {
                return Err(pe);
            },
        };
        loop
            invariant
                self.wf(),
                self.tokens == old(self).tokens,
                ts == self.toks(),
                start == old(self).current as int,
                start < self.current as int,
                p_comparison(ts, start) == p_comparison_tail(ts, self.current as int, e@),
            decreases self.tokens@.len() - self.current,
        {
            reveal(p_comparison); reveal(p_comparison_tail);
            if self.current >= self.tokens.len() {
                return Err(unexpected("unexpected end of input"));
            }
            let is_op = match &self.tokens[self.current].token_type {
                TokenType::GREATER => true,
                TokenType::GREATEREQUAL => true,
                TokenType::LESS => true,
                TokenType::LESSEQUAL => true,
                _ => false,
            };
            if !is_op {
                return Ok(e);
            }
            let operator = self.tokens[self.current].clone();
            self.current = self.current + 1;
            let right = match self.term_rule() {
                Ok(r) => r,
                Err(pe) => {
                    return Err(pe);
                },
            };
            e = Expr::Binary(Box::new(e), Box::new(operator), Box::new(right));
        }
    }

    /// Parses an `equality`, as `p_equality` describes.
    #[verifier::rlimit(100)]
    #[verifier::spinoff_prover]
    pub fn equality_rule(&mut self) -> (r: ExprParserResult)
        requires
            old(self).wf(),
        ensures
            final(self).wf(),
            final(self).tokens == old(self).tokens,
            match r {
                Ok(e) => ({
                    &&& p_equality(old(self).toks(), old(self).current as int) == Ok::<
                        (ExprV, int),
                        PErrV,
                    >((e@, final(self).current as int))
                    &&& old(self).current < final(self).current
                }),
                Err(pe) => p_equality(old(self).toks(), old(self).current as int) == Err::<
                    (ExprV, int),
                    PErrV,
                >(pe@),
            },
        decreases self.tokens@.len() - self.current, 8int,
    {
        reveal(p_equality); reveal(p_equality_tail);
        let ghost ts = self.toks();
        let ghost start = self.current as int;
        let mut e = match self.comparison_rule() {
            Ok(e) => e,
            Err(pe) => {
                return Err(pe);
            },
        };
        loop
            invariant
                self.wf(),
                self.tokens == old(self).tokens,
                ts == self.toks(),
                start == old(self).current as int,
                start < self.current as int,
                p_equality(ts, start) == p_equality_tail(ts, self.current as int, e@),
            decreases self.tokens@.len() - self.current,
        {
            reveal(p_equality); reveal(p_equality_tail);
            if self.current >= self.tokens.len() {
                return Err(unexpected("unexpected end of input"));
            }
            let is_op = match &self.tokens[self.current].token_type {
                TokenType::BANGEQUAL => true,
                TokenType::EQUALEQUAL => true,
                _ => false,
            };
            if !is_op {
                return Ok(e);
            }
            let operator = self.tokens[self.current].clone();
            self.current = self.current + 1;
            let right = match self.comparison_rule() {
                Ok(r) => r,
                Err(pe) => {
                    return Err(pe);
                },
            };
            e = Expr::Binary(Box::new(e), Box::new(operator), Box::new(right));
        }
    }

    /// Parses a `logic_and`, as `p_logic_and` describes.
    #[verifier::rlimit(100)]
    #[verifier::spinoff_prover]
    pub fn logic_and_rule(&mut self) -> (r: ExprParserResult)
        requires
            old(self).wf(),
        ensures
            final(self).wf(),
            final(self).tokens == old(self).tokens,
            match r {
                Ok(e) => ({
                    &&& p_logic_and(old(self).toks(), old(self).current as int) == Ok::<
                        (ExprV, int),
                        PErrV,
                    >((e@, final(self).current as int))
                    &&& old(self).current < final(self).current
                }),
                Err(pe) => p_logic_and(old(self).toks(), old(self).current as int) == Err::<
                    (ExprV, int),
                    PErrV,
                >(pe@),
            },
        decreases self.tokens@.len() - self.current, 9int,
    {
        reveal(p_logic_and); reveal(p_logic_and_tail);
        let ghost ts = self.toks();
        let ghost start = self.current as int;
        let mut e = match self.equality_rule() {
            Ok(e) => e,
            Err(pe) => {
                return Err(pe);
            },
        };
        loop
            invariant
                self.wf(),
                self.tokens == old(self).tokens,
                ts == self.toks(),
                start == old(self).current as int,
                start < self.current as int,
                p_logic_and(ts, start) == p_logic_and_tail(ts, self.current as int, e@),
            decreases self.tokens@.len() - self.current,
        {
            reveal(p_logic_and); reveal(p_logic_and_tail);
            if self.current >= self.tokens.len() {
                return Err(unexpected("unexpected end of input"));
            }
            let is_op = match &self.tokens[self.current].token_type {
                TokenType::AND => true,
                _ => false,
            };
            if !is_op {
                return Ok(e);
            }
            let operator = self.tokens[self.current].clone();
            self.current = self.current + 1;
            let right = match self.equality_rule() {
                Ok(r) => r,
                Err(pe) => {
                    return Err(pe);
                },
            };
            e = Expr::Logical(Box::new(e), Box::new(operator), Box::new(right));
        }
    }

    /// Parses a `logic_or`, as `p_logic_or` describes.
    #[verifier::rlimit(100)]
    #[verifier::spinoff_prover]
    pub fn logic_or_rule(&mut self) -> (r: ExprParserResult)
        requires
            old(self).wf(),
        ensures
            final(self).wf(),
            final(self).tokens == old(self).tokens,
            match r {
                Ok(e) => ({
                    &&& p_logic_or(old(self).toks(), old(self).current as int) == Ok::<
                        (ExprV, int),
                        PErrV,
                    >((e@, final(self).current as int))
                    &&& old(self).current < final(self).current
                }),
                Err(pe) => p_logic_or(old(self).toks(), old(self).current as int) == Err::<
                    (ExprV, int),
                    PErrV,
                >(pe@),
            },
        decreases self.tokens@.len() - self.current, 10int,
    {
        reveal(p_logic_or); reveal(p_logic_or_tail);
        let ghost ts = self.toks();
        let ghost start = self.current as int;
        let mut e = match self.logic_and_rule() {
            Ok(e) => e,
            Err(pe) => {
                return Err(pe);
            },
        };
        loop
            invariant
                self.wf(),
                self.tokens == old(self).tokens,
                ts == self.toks(),
                start == old(self).current as int,
                start < self.current as int,
                p_logic_or(ts, start) == p_logic_or_tail(ts, self.current as int, e@),
            decreases self.tokens@.len() - self.current,
        {
            reveal(p_logic_or); reveal(p_logic_or_tail);
            if self.current >= self.tokens.len() {
                return Err(unexpected("unexpected end of input"));
            }
            let is_op = match &self.tokens[self.current].token_type {
                TokenType::OR => true,
                _ => false,
            };
            if !is_op {
                return Ok(e);
            }
            let operator = self.tokens[self.current].clone();
            self.current = self.current + 1;
            let right = match self.logic_and_rule() {
                Ok(r) => r,
                Err(pe) => {
                    return Err(pe);
                },
            };
            e = Expr::Logical(Box::new(e), Box::new(operator), Box::new(right));
        }
    }

    /// Parses an `assignment`, as `p_assignment` describes: the left side is
    /// parsed as an ordinary expression, and if an `=` follows it must have
    /// been a bare variable.
    #[verifier::rlimit(100)]
    #[verifier::spinoff_prover]
    pub fn assignment_rule(&mut self) -> (r: ExprParserResult)
        requires
            old(self).wf(),
        ensures
            final(self).wf(),
            final(self).tokens == old(self).tokens,
            match r {
                Ok(e) => ({
                    &&& p_assignment(old(self).toks(), old(self).current as int) == Ok::<
                        (ExprV, int),
                        PErrV,
                    >((e@, final(self).current as int))
                    &&& old(self).current < final(self).current
                }),
                Err(pe) => p_assignment(old(self).toks(), old(self).current as int) == Err::<
                    (ExprV, int),
                    PErrV,
                >(pe@),
            },
        decreases self.tokens@.len() - self.current, 11int,
    {
        reveal(p_assignment);
        let e = match self.logic_or_rule() {
            Ok(e) => e,
            Err(pe) => {
                return Err(pe);
            },
        };
        if self.consume(TokenType::EQUAL) {
            let value = match self.assignment_rule() {
                Ok(v) => v,
                Err(pe) => {
                    return Err(pe);
                },
            };
            match e {
                Expr::Variable(name) => Ok(Expr::Assignment(name, Box::new(value))),
                _ => Err(ParserError::NonValidAssignmentTarget),
            }
        } else {
            Ok(e)
        }
    }

    /// Parses an `expression`, as `p_expression` describes.
    #[verifier::rlimit(100)]
    #[verifier::spinoff_prover]
    pub fn expr_rule(&mut self) -> (r: ExprParserResult)
        requires
            old(self).wf(),
        ensures
            final(self).wf(),
            final(self).tokens == old(self).tokens,
            match r {
                Ok(e) => ({
                    &&& p_expression(old(self).toks(), old(self).current as int) == Ok::<
                        (ExprV, int),
                        PErrV,
                    >((e@, final(self).current as int))
                    &&& old(self).current < final(self).current
                }),
                Err(pe) => p_expression(old(self).toks(), old(self).current as int) == Err::<
                    (ExprV, int),
                    PErrV,
                >(pe@),
            },
        decreases self.tokens@.len() - self.current, 12int,
    {
        reveal(p_expression); reveal(p_assignment);
        self.assignment_rule()
    }

    /// Parses a `printStmt`, as `p_print_stmt` describes. The caller has
    /// seen the `print` keyword under the cursor.
    #[verifier::rlimit(100)]
    #[verifier::spinoff_prover]
    fn print_stmt(&mut self) -> (r: StmtParserResult)
        requires
            old(self).wf(),
            old(self).current < old(self).tokens@.len(),
        ensures
            final(self).wf(),
            final(self).tokens == old(self).tokens,
            match r {
                Ok(s) => ({
                    &&& p_print_stmt(old(self).toks(), old(self).current as int) == Ok::<
                        (StmtV, int),
                        PErrV,
                    >((s@, final(self).current as int))
                    &&& old(self).current < final(self).current
                }),
                Err(pe) => p_print_stmt(old(self).toks(), old(self).current as int) == Err::<
                    (StmtV, int),
                    PErrV,
                >(pe@),
            },
        decreases self.tokens@.len() - self.current, 18int,
    {
        reveal(p_print_stmt);
        let n = self.tokens.len();
        proof {
            assert(self.current < n);
        }
        self.current = self.current + 1;
        let e = match self.expr_rule() {
            Ok(e) => e,
            Err(pe) => {
                return Err(pe);
            },
        };
        if !self.consume(TokenType::SEMICOLON) {
            return Err(unexpected("a semicolon was required after the printed expression"));
        }
        Ok(Stmt::PRINT(Box::new(e)))
    }

    /// Parses an `exprStmt`, as `p_expr_stmt` describes.
    #[verifier::rlimit(100)]
    #[verifier::spinoff_prover]
    fn expr_stmt(&mut self) -> (r: StmtParserResult)
        requires
            old(self).wf(),
        ensures
            final(self).wf(),
            final(self).tokens == old(self).tokens,
            match r {
                Ok(s) => ({
                    &&& p_expr_stmt(old(self).toks(), old(self).current as int) == Ok::<
                        (StmtV, int),
                        PErrV,
                    >((s@, final(self).current as int))
                    &&& old(self).current < final(self).current
                }),
                Err(pe) => p_expr_stmt(old(self).toks(), old(self).current as int) == Err::<
                    (StmtV, int),
                    PErrV,
                >(pe@),
            },
        decreases self.tokens@.len() - self.current, 18int,
    {
        reveal(p_expr_stmt);
        let e = match self.expr_rule() {
            Ok(e) => e,
            Err(pe) => {
                return Err(pe);
            },
        };
        if !self.consume(TokenType::SEMICOLON) {
            return Err(unexpected("a semicolon was required after the expression"));
        }
        Ok(Stmt::EXPR(Box::new(e)))
    }

    /// Parses a `varDecl`, as `p_var_decl` describes.
    #[verifier::rlimit(100)]
    #[verifier::spinoff_prover]
    fn var_declaration(&mut self) -> (r: StmtParserResult)
        requires
            old(self).wf(),
        ensures
            final(self).wf(),
            final(self).tokens == old(self).tokens,
            match r {
                Ok(s) => ({
                    &&& p_var_decl(old(self).toks(), old(self).current as int) == Ok::<
                        (StmtV, int),
                        PErrV,
                    >((s@, final(self).current as int))
                    &&& old(self).current < final(self).current
                }),
                Err(pe) => p_var_decl(old(self).toks(), old(self).current as int) == Err::<
                    (StmtV, int),
                    PErrV,
                >(pe@),
            },
        decreases self.tokens@.len() - self.current, 18int,
    {
        reveal(p_var_decl);
        if !self.consume(TokenType::VAR) {
            return Err(unexpected("the var keyword was required here"));
        }
        let name = match self.consume_advance_return(TokenType::IDENTIFIER(String::new())) {
            Ok(t) => t.clone(),
            Err(pe) => {
                return Err(pe);
            },
        };
        if self.consume(TokenType::EQUAL) {
            let e = match self.expr_rule() {
                Ok(e) => e,
                Err(pe) => {
                    return Err(pe);
                },
            };
            if !self.consume(TokenType::SEMICOLON) {
                return Err(unexpected("a semicolon was required after the declaration"));
            }
            Ok(Stmt::VAR(Box::new(name), Some(Box::new(e))))
        } else {
            if !self.consume(TokenType::SEMICOLON) {
                return Err(unexpected("a semicolon was required after the declaration"));
            }
            Ok(Stmt::VAR(Box::new(name), None))
        }
    }

    /// Parses a `block`, as `p_block` describes: reaching the end of input
    /// before the closing brace is a parse error.
    #[verifier::rlimit(100)]
    #[verifier::spinoff_prover]
    fn block_stmt(&mut self) -> (r: StmtParserResult)
        requires
            old(self).wf(),
        ensures
            final(self).wf(),
            final(self).tokens == old(self).tokens,
            match r {
                Ok(s) => ({
                    &&& p_block(old(self).toks(), old(self).current as int) == Ok::<
                        (StmtV, int),
                        PErrV,
                    >((s@, final(self).current as int))
                    &&& old(self).current < final(self).current
                }),
                Err(pe) => p_block(old(self).toks(), old(self).current as int) == Err::<
                    (StmtV, int),
                    PErrV,
                >(pe@),
            },
        decreases self.tokens@.len() - self.current, 18int,
    {
        reveal(p_block);
        if !self.consume(TokenType::LEFTBRACE) {
            return Err(unexpected("an opening brace was required here"));
        }
        match self.block_items() {
            Ok(items) => Ok(Stmt::BLOCK(items)),
            Err(pe) => Err(pe),
        }
    }

    /// Parses the declarations between a block's braces, as `p_block_items`
    /// describes, consuming the closing brace.
    #[verifier::rlimit(100)]
    #[verifier::spinoff_prover]
    fn block_items(&mut self) -> (r: Result<Vec<Box<Stmt>>, ParserError>)
        requires
            old(self).wf(),
        ensures
            final(self).wf(),
            final(self).tokens == old(self).tokens,
            match r {
                Ok(items) => ({
                    &&& p_block_items(old(self).toks(), old(self).current as int) == Ok::<
                        (Seq<StmtV>, int),
                        PErrV,
                    >((Stmt::seq_to_v(items@), final(self).current as int))
                    &&& old(self).current < final(self).current
                }),
                Err(pe) => p_block_items(old(self).toks(), old(self).current as int) == Err::<
                    (Seq<StmtV>, int),
                    PErrV,
                >(pe@),
            },
        decreases self.tokens@.len() - self.current, 21int,
    {
        let ghost ts = self.toks();
        let ghost istart = self.current as int;
        let mut items: Vec<Box<Stmt>> = Vec::new();
        proof {
            assert(Stmt::seq_to_v(items@) =~= Seq::<StmtV>::empty());
        }
        loop
            invariant
                self.wf(),
                self.tokens == old(self).tokens,
                ts == self.toks(),
                istart == old(self).current as int,
                istart <= self.current as int,
                p_block_items(ts, istart) == (match p_block_items(ts, self.current as int) {
                    Ok(rk) => Ok::<(Seq<StmtV>, int), PErrV>(
                        (Stmt::seq_to_v(items@) + rk.0, rk.1),
                    ),
                    Err(pe) => Err::<(Seq<StmtV>, int), PErrV>(pe),
                }),
            decreases self.tokens@.len() - self.current,
        {
            reveal(p_block_items);
            if self.is_at_end() {
                return Err(unexpected("the end of input came before the closing brace"));
            }
            if self.consume(TokenType::RIGHTBRACE) {
                proof {
                    assert(Stmt::seq_to_v(items@) + Seq::<StmtV>::empty() =~= Stmt::seq_to_v(
                        items@,
                    ));
                }
                return Ok(items);
            }
            let ghost cur0 = self.current as int;
            let d = match self.declaration() {
                Ok(d) => d,
                Err(pe) => {
                    return Err(pe);
                },
            };
            let ghost dv = d@;
            let ghost items_prev = items@;
            items.push(Box::new(d));
            proof {
                crate::stmt::lemma_seq_to_v_push(items_prev, items@.last());
                assert(items@ == items_prev.push(items@.last()));
                assert(Stmt::seq_to_v(items@) == Stmt::seq_to_v(items_prev).push(dv));
                match p_block_items(ts, self.current as int) {
                    Ok(rk) => {
                        assert(Stmt::seq_to_v(items_prev) + (seq![dv] + rk.0) =~= Stmt::seq_to_v(
                            items@,
                        ) + rk.0);
                    },
                    Err(_) => {},
                }
            }
        }
    }

    /// Parses an `ifStmt`, as `p_if_stmt` describes. The caller has seen the
    /// `if` keyword under the cursor.
    #[verifier::rlimit(100)]
    #[verifier::spinoff_prover]
    fn if_stmt(&mut self) -> (r: StmtParserResult)
        requires
            old(self).wf(),
            old(self).current < old(self).tokens@.len(),
        ensures
            final(self).wf(),
            final(self).tokens == old(self).tokens,
            match r {
                Ok(s) => ({
                    &&& p_if_stmt(old(self).toks(), old(self).current as int) == Ok::<
                        (StmtV, int),
                        PErrV,
                    >((s@, final(self).current as int))
                    &&& old(self).current < final(self).current
                }),
                Err(pe) => p_if_stmt(old(self).toks(), old(self).current as int) == Err::<
                    (StmtV, int),
                    PErrV,
                >(pe@),
            },
        decreases self.tokens@.len() - self.current, 18int,
    {
        reveal(p_if_stmt);
        let n = self.tokens.len();
        proof {
            assert(self.current < n);
        }
        self.current = self.current + 1;
        match self.consume_advance_return(TokenType::LEFTPAREN) {
            Ok(_) => {},
            Err(pe) => {
                return Err(pe);
            },
        }
        let condition = match self.expr_rule() {
            Ok(e) => e,
            Err(pe) => {
                return Err(pe);
            },
        };
        if !self.consume(TokenType::RIGHTPAREN) {
            return Err(unexpected("a closing parenthesis was required after the condition"));
        }
        let main_block = match self.block_stmt() {
            Ok(b) => b,
            Err(pe) => {
                return Err(pe);
            },
        };
        if self.consume(TokenType::ELSE) {
            let else_block = match self.block_stmt() {
                Ok(b) => b,
                Err(pe) => {
                    return Err(pe);
                },
            };
            Ok(Stmt::IF(Box::new(condition), Box::new(main_block), Some(Box::new(else_block))))
        } else {
            Ok(Stmt::IF(Box::new(condition), Box::new(main_block), None))
        }
    }

    /// Parses a `whileStmt`, as `p_while_stmt` describes. The caller has
    /// seen the `while` keyword under the cursor.
    #[verifier::rlimit(100)]
    #[verifier::spinoff_prover]
    fn while_stmt(&mut self) -> (r: StmtParserResult)
        requires
            old(self).wf(),
            old(self).current < old(self).tokens@.len(),
        ensures
            final(self).wf(),
            final(self).tokens == old(self).tokens,
            match r {
                Ok(s) => ({
                    &&& p_while_stmt(old(self).toks(), old(self).current as int) == Ok::<
                        (StmtV, int),
                        PErrV,
                    >((s@, final(self).current as int))
                    &&& old(self).current < final(self).current
                }),
                Err(pe) => p_while_stmt(old(self).toks(), old(self).current as int) == Err::<
                    (StmtV, int),
                    PErrV,
                >(pe@),
            },
        decreases self.tokens@.len() - self.current, 18int,
    {
        reveal(p_while_stmt);
        let n = self.tokens.len();
        proof {
            assert(self.current < n);
        }
        self.current = self.current + 1;
        match self.consume_advance_return(TokenType::LEFTPAREN) {
            Ok(_) => {},
            Err(pe) => {
                return Err(pe);
            },
        }
        let condition = match self.expr_rule() {
            Ok(e) => e,
            Err(pe) => {
                return Err(pe);
            },
        };
        if !self.consume(TokenType::RIGHTPAREN) {
            return Err(unexpected("a closing parenthesis was required after the condition"));
        }
        let body = match self.block_stmt() {
            Ok(b) => b,
            Err(pe) => {
                return Err(pe);
            },
        };
        Ok(Stmt::WHILE(Box::new(condition), Box::new(body)))
    }

    /// Parses a `statement`, as `p_statement` describes.
    #[verifier::rlimit(100)]
    #[verifier::spinoff_prover]
    pub fn parse_stmt(&mut self) -> (r: StmtParserResult)
        requires
            old(self).wf(),
        ensures
            final(self).wf(),
            final(self).tokens == old(self).tokens,
            match r {
                Ok(s) => ({
                    &&& p_statement(old(self).toks(), old(self).current as int) == Ok::<
                        (StmtV, int),
                        PErrV,
                    >((s@, final(self).current as int))
                    &&& old(self).current < final(self).current
                }),
                Err(pe) => p_statement(old(self).toks(), old(self).current as int) == Err::<
                    (StmtV, int),
                    PErrV,
                >(pe@),
            },
        decreases self.tokens@.len() - self.current, 19int,
    {
        reveal(p_statement);
        if self.current >= self.tokens.len() {
            return Err(unexpected("a statement was required here"));
        }
        let kind: u8 = match &self.tokens[self.current].token_type {
            TokenType::PRINT => 0,
            TokenType::LEFTBRACE => 1,
            TokenType::IF => 2,
            TokenType::WHILE => 3,
            _ => 4,
        };
        if kind == 0 {
            self.print_stmt()
        } else if kind == 1 {
            self.block_stmt()
        } else if kind == 2 {
            self.if_stmt()
        } else if kind == 3 {
            self.while_stmt()
        } else {
            self.expr_stmt()
        }
    }

    /// Parses a `declaration`, as `p_declaration` describes.
    #[verifier::rlimit(100)]
    #[verifier::spinoff_prover]
    pub fn declaration(&mut self) -> (r: StmtParserResult)
        requires
            old(self).wf(),
        ensures
            final(self).wf(),
            final(self).tokens == old(self).tokens,
            match r {
                Ok(s) => ({
                    &&& p_declaration(old(self).toks(), old(self).current as int) == Ok::<
                        (StmtV, int),
                        PErrV,
                    >((s@, final(self).current as int))
                    &&& old(self).current < final(self).current
                }),
                Err(pe) => p_declaration(old(self).toks(), old(self).current as int) == Err::<
                    (StmtV, int),
                    PErrV,
                >(pe@),
            },
        decreases self.tokens@.len() - self.current, 20int,
    {
        reveal(p_declaration);
        if self.current >= self.tokens.len() {
            return Err(unexpected("a declaration was required here"));
        }
        let is_var = match &self.tokens[self.current].token_type {
            TokenType::VAR => true,
            _ => false,
        };
        if is_var {
            self.var_declaration()
        } else {
            self.parse_stmt()
        }
    }

    /// Parses a whole program: declarations until the end marker, as
    /// `p_program` describes. The first syntax error aborts the parse.
    #[verifier::rlimit(100)]
    #[verifier::spinoff_prover]
    pub fn parse(&mut self) -> (r: Result<Vec<Stmt>, ParserError>)
        requires
            old(self).wf(),
        ensures
            final(self).wf(),
            final(self).tokens == old(self).tokens,
            match r {
                Ok(stmts) => p_program(old(self).toks(), old(self).current as int) == Ok::<
                    Seq<StmtV>,
                    PErrV,
                >(program_view(stmts@)),
                Err(pe) => p_program(old(self).toks(), old(self).current as int) == Err::<
                    Seq<StmtV>,
                    PErrV,
                >(pe@),
            },
    {
        let ghost ts = self.toks();
        let ghost start = self.current as int;
        let mut stmts: Vec<Stmt> = Vec::new();
        proof {
            assert(program_view(stmts@) =~= Seq::<StmtV>::empty());
        }
        loop
            invariant
                self.wf(),
                self.tokens == old(self).tokens,
                ts == self.toks(),
                start == old(self).current as int,
                p_program(ts, start) == (match p_program(ts, self.current as int) {
                    Ok(rest) => Ok::<Seq<StmtV>, PErrV>(program_view(stmts@) + rest),
                    Err(pe) => Err::<Seq<StmtV>, PErrV>(pe),
                }),
            decreases self.tokens@.len() - self.current,
        {
            reveal(p_program);
            if self.is_at_end() {
                proof {
                    assert(program_view(stmts@) + Seq::<StmtV>::empty() =~= program_view(stmts@));
                }
                return Ok(stmts);
            }
            let s = match self.declaration() {
                Ok(s) => s,
                Err(pe) => {
                    return Err(pe);
                },
            };
            let ghost sv = s@;
            let ghost prev = stmts@;
            stmts.push(s);
            proof {
                assert(program_view(stmts@) =~= program_view(prev).push(sv));
                match p_program(ts, self.current as int) {
                    Ok(rest) => {
                        assert(program_view(prev) + (seq![sv] + rest) =~= program_view(stmts@)
                            + rest);
                    },
                    Err(_) => {},
                }
            }
        }
    }
}

} // verus!
