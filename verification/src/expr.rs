use vstd::prelude::*;
use crate::token::{Token, TokenV};

verus! {

/// An expression tree node. Every node exclusively owns its children;
/// operator nodes keep the token they were parsed from.
#[derive(Debug)]
pub enum Expr {
    Binary(Box<Expr>, Box<Token>, Box<Expr>),
    Grouping(Box<Expr>),
    NumberLit(i64),
    StringLit(Box<String>),
    Unary(Box<Token>, Box<Expr>),
    Variable(Box<String>),
    Assignment(Box<String>, Box<Expr>),
    Boolean(bool),
    Logical(Box<Expr>, Box<Token>, Box<Expr>),
    Nil,
}

/// Mathematical model of an expression tree.
pub enum ExprV {
    Binary(Box<ExprV>, TokenV, Box<ExprV>),
    Grouping(Box<ExprV>),
    NumberLit(i64),
    StringLit(Seq<char>),
    Unary(TokenV, Box<ExprV>),
    Variable(Seq<char>),
    Assignment(Seq<char>, Box<ExprV>),
    Boolean(bool),
    Logical(Box<ExprV>, TokenV, Box<ExprV>),
    Nil,
}

impl Expr {
    /// The model of this expression tree.
    pub open spec fn to_v(&self) -> ExprV
        decreases self,
    {
        match self {
            Expr::Binary(l, op, r) => ExprV::Binary(Box::new(l.to_v()), op@, Box::new(r.to_v())),
            Expr::Grouping(inner) => ExprV::Grouping(Box::new(inner.to_v())),
            Expr::NumberLit(n) => ExprV::NumberLit(*n),
            Expr::StringLit(s) => ExprV::StringLit(s@),
            Expr::Unary(op, sub) => ExprV::Unary(op@, Box::new(sub.to_v())),
            Expr::Variable(name) => ExprV::Variable(name@),
            Expr::Assignment(name, rhs) => ExprV::Assignment(name@, Box::new(rhs.to_v())),
            Expr::Boolean(b) => ExprV::Boolean(*b),
            Expr::Logical(l, op, r) => ExprV::Logical(Box::new(l.to_v()), op@, Box::new(r.to_v())),
            Expr::Nil => ExprV::Nil,
        }
    }
}

impl View for Expr {
    type V = ExprV;

    open spec fn view(&self) -> ExprV {
        self.to_v()
    }
}

} // verus!
