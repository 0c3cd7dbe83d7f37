use vstd::prelude::*;
use crate::expr::{Expr, ExprV};
use crate::token::{Token, TokenV};

verus! {

/// A statement node. A program is an ordered sequence of these; a block
/// carries the statements between its braces and runs them in its own scope.
#[derive(Debug)]
pub enum Stmt {
    PRINT(Box<Expr>),
    EXPR(Box<Expr>),
    VAR(Box<Token>, Option<Box<Expr>>),
    BLOCK(Vec<Box<Stmt>>),
    IF(Box<Expr>, Box<Stmt>, Option<Box<Stmt>>),
    WHILE(Box<Expr>, Box<Stmt>),
}

/// Mathematical model of a statement node.
pub enum StmtV {
    PRINT(Box<ExprV>),
    EXPR(Box<ExprV>),
    VAR(TokenV, Option<Box<ExprV>>),
    BLOCK(Seq<StmtV>),
    IF(Box<ExprV>, Box<StmtV>, Option<Box<StmtV>>),
    WHILE(Box<ExprV>, Box<StmtV>),
}

impl Stmt {
    /// The model of this statement tree.
    pub open spec fn to_v(&self) -> StmtV
        decreases self,
    {
        match self {
            Stmt::PRINT(e) => StmtV::PRINT(Box::new(e.to_v())),
            Stmt::EXPR(e) => StmtV::EXPR(Box::new(e.to_v())),
            Stmt::VAR(name, init) => StmtV::VAR(
                name@,
                match init {
                    Some(e) => Some(Box::new(e.to_v())),
                    None => None,
                },
            ),
            Stmt::BLOCK(body) => StmtV::BLOCK(Stmt::seq_to_v(body@)),
            Stmt::IF(cond, then, els) => StmtV::IF(
                Box::new(cond.to_v()),
                Box::new(then.to_v()),
                match els {
                    Some(s) => Some(Box::new(s.to_v())),
                    None => None,
                },
            ),
            Stmt::WHILE(cond, body) => StmtV::WHILE(Box::new(cond.to_v()), Box::new(body.to_v())),
        }
    }

    /// The models of a sequence of owned statements, in order.
    pub open spec fn seq_to_v(ss: Seq<Box<Stmt>>) -> Seq<StmtV>
        decreases ss,
    {
        if ss.len() == 0 {
            Seq::empty()
        } else {
            seq![ss[0].to_v()] + Stmt::seq_to_v(ss.subrange(1, ss.len() as int))
        }
    }
}

impl View for Stmt {
    type V = StmtV;

    open spec fn view(&self) -> StmtV {
        self.to_v()
    }
}

/// The models of a program: its statements, in order.
pub open spec fn program_view(stmts: Seq<Stmt>) -> Seq<StmtV> {
    Seq::new(stmts.len(), |i: int| stmts[i]@)
}

/// Appending one statement appends its model.
pub proof fn lemma_seq_to_v_push(ss: Seq<Box<Stmt>>, x: Box<Stmt>)
    ensures
        Stmt::seq_to_v(ss.push(x)) == Stmt::seq_to_v(ss).push(x.to_v()),
{
    lemma_seq_to_v(ss);
    lemma_seq_to_v(ss.push(x));
    assert(Stmt::seq_to_v(ss.push(x)) =~= Stmt::seq_to_v(ss).push(x.to_v()));
}

/// Facts connecting `seq_to_v` to direct indexing: the model sequence has
/// the same length, and each element is the model of the statement at the
/// same position.
pub proof fn lemma_seq_to_v(ss: Seq<Box<Stmt>>)
    ensures
        Stmt::seq_to_v(ss).len() == ss.len(),
        forall|i: int| 0 <= i < ss.len() ==> Stmt::seq_to_v(ss)[i] == ss[i].to_v(),
    decreases ss,
{
    if ss.len() > 0 {
        lemma_seq_to_v(ss.subrange(1, ss.len() as int));
        assert forall|i: int| 0 <= i < ss.len() implies Stmt::seq_to_v(ss)[i] == ss[i].to_v() by {
            if i > 0 {
                assert(ss.subrange(1, ss.len() as int)[i - 1] == ss[i]);
            }
        }
    }
}

} // verus!
