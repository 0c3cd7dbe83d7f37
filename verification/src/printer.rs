use vstd::prelude::*;
use vstd::string::StringExecFns;
use crate::expr::{Expr, ExprV};
use crate::stmt::{program_view, Stmt, StmtV};
use crate::text::{int_text, num_text};

verus! {

/// The debug text of an expression tree: operators parenthesized prefix
/// style, literals in their textual form, and `nil` for the nil literal and
/// for the node kinds the printer does not spell out.
pub open spec fn print_expr_v(e: ExprV) -> Seq<char>
    decreases e,
{
    match e {
        ExprV::Binary(l, op, r) => "("@ + op.lexeme + " "@ + print_expr_v(*l) + " "@
            + print_expr_v(*r) + ")"@,
        ExprV::Grouping(inner) => "(group "@ + print_expr_v(*inner) + ")"@,
        ExprV::NumberLit(n) => int_text(n as int),
        ExprV::StringLit(s) => s,
        ExprV::Unary(op, sub) => "("@ + op.lexeme + " "@ + print_expr_v(*sub) + ")"@,
        ExprV::Variable(name) => name,
        ExprV::Assignment(name, value) => "(= "@ + name + " "@ + print_expr_v(*value) + ")"@,
        ExprV::Boolean(b) => if b {
            "true"@
        } else {
            "false"@
        },
        _ => "nil"@,
    }
}

/// Whether the printer spells a statement out: it prints the expression of
/// an expression or print statement and nothing else.
pub open spec fn printable_stmt(s: StmtV) -> bool {
    s is EXPR || s is PRINT
}

/// The debug text of a printable statement.
pub open spec fn print_stmt_v(s: StmtV) -> Seq<char>
    recommends
        printable_stmt(s),
{
    match s {
        StmtV::EXPR(e) => print_expr_v(*e),
        StmtV::PRINT(e) => print_expr_v(*e),
        _ => Seq::empty(),
    }
}

/// The debug text of a program: its statements' texts, concatenated.
pub open spec fn print_program_v(ss: Seq<StmtV>) -> Seq<char>
    decreases ss,
{
    if ss.len() == 0 {
        Seq::empty()
    } else {
        print_stmt_v(ss[0]) + print_program_v(ss.subrange(1, ss.len() as int))
    }
}

/// A reader of expression trees, producing one result per expression.
pub trait ExprVisitor<T> {
    fn visit_expr(&self, b: &Expr) -> T;
}

/// A reader of statement trees, producing one result per statement.
pub trait StmtVisitor<T> {
    fn visit_stmt(&self, b: &Stmt) -> T;
}

/// Prints the tree shape of expressions, for inspection and tests.
#[derive(Default)]
pub struct AstPrinter;

impl ExprVisitor<String> for AstPrinter {
    fn visit_expr(&self, b: &Expr) -> String {
        self.print_expr(b)
    }
}

impl StmtVisitor<String> for AstPrinter {
    fn visit_stmt(&self, b: &Stmt) -> String {
        if matches!(b, Stmt::EXPR(_)) || matches!(b, Stmt::PRINT(_)) {
            self.print_stmt(b)
        } else {
            String::new()
        }
    }
}

impl AstPrinter {
    /// The debug text of an expression, as `print_expr_v` describes.
    pub fn print_expr(&self, e: &Expr) -> (r: String)
        ensures
            r@ == print_expr_v(e@),
        decreases e,
    {
        match e {
            Expr::Binary(l, op, r) => {
                let mut s = String::from_str("(");
                s.append(op.lexeme.as_str());
                s.append(" ");
                let ls = self.print_expr(l);
                s.append(ls.as_str());
                s.append(" ");
                let rs = self.print_expr(r);
                s.append(rs.as_str());
                s.append(")");
                s
            },
            Expr::Grouping(inner) => {
                let mut s = String::from_str("(group ");
                let is = self.print_expr(inner);
                s.append(is.as_str());
                s.append(")");
                s
            },
            Expr::NumberLit(n) => num_text(*n),
            Expr::StringLit(v) => (**v).clone(),
            Expr::Unary(op, sub) => {
                let mut s = String::from_str("(");
                s.append(op.lexeme.as_str());
                s.append(" ");
                let ss = self.print_expr(sub);
                s.append(ss.as_str());
                s.append(")");
                s
            },
            Expr::Variable(v) => (**v).clone(),
            Expr::Assignment(name, value) => {
                let mut s = String::from_str("(= ");
                s.append(name.as_str());
                s.append(" ");
                let vs = self.print_expr(value);
                s.append(vs.as_str());
                s.append(")");
                s
            },
            Expr::Boolean(b) => {
                if *b {
                    String::from_str("true")
                } else {
                    String::from_str("false")
                }
            },
            _ => String::from_str("nil"),
        }
    }

    /// The debug text of a printable statement.
    pub fn print_stmt(&self, e: &Stmt) -> (r: String)
        requires
            printable_stmt(e@),
        ensures
            r@ == print_stmt_v(e@),
    {
        match e {
            Stmt::EXPR(inner) => self.print_expr(inner),
            Stmt::PRINT(inner) => self.print_expr(inner),
            _ => String::new(),
        }
    }

    /// The debug text of a program of printable statements, concatenated.
    pub fn print_program(&self, e: &Vec<Stmt>) -> (r: String)
        requires
            forall|i: int| 0 <= i < e@.len() ==> printable_stmt(#[trigger] e@[i]@),
        ensures
            r@ == print_program_v(program_view(e@)),
    {
        let ghost pv = program_view(e@);
        let mut s = String::new();
        let n = e.len();
        let mut i: usize = 0;
        proof {
            assert(Seq::<char>::empty() + print_program_v(pv) =~= print_program_v(pv));
            assert(pv.subrange(0, n as int) =~= pv);
        }
        while i < n
            invariant
                i <= n,
                n == e@.len(),
                pv == program_view(e@),
                forall|k: int| 0 <= k < e@.len() ==> printable_stmt(#[trigger] e@[k]@),
                print_program_v(pv) == s@ + print_program_v(pv.subrange(i as int, n as int)),
            decreases n - i,
        {
            let piece = self.print_stmt(&e[i]);
            s.append(piece.as_str());
            proof {
                let sub = pv.subrange(i as int, n as int);
                assert(sub[0] == pv[i as int]);
                assert(sub.subrange(1, sub.len() as int) =~= pv.subrange(i as int + 1, n as int));
            }
            i = i + 1;
        }
        proof {
            assert(pv.subrange(n as int, n as int).len() == 0);
            assert(s@ + Seq::<char>::empty() =~= s@);
        }
        s
    }
}

} // verus!
