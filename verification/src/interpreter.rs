use vstd::prelude::*;
use vstd::string::StringExecFns;
use crate::environment::{env_assign, env_define, env_get, EnvV, Environment};
use crate::expr::{Expr, ExprV};
use crate::object::{
    add_v, cmp_v, div_v, eq_v, mul_v, neg_v, not_v, obj_res_view, obj_text, sub_v, truthy_v,
    Object, ObjectV,
};
use crate::stmt::{program_view, Stmt, StmtV};
use crate::token::{Token, TokenTypeV};

verus! {

/// An error raised while a program runs: an operator applied to value kinds
/// it does not accept, a read or assignment of a name that no scope binds,
/// an attempt to discard the global scope, or a malformed tree node.
#[derive(Debug)]
pub enum RuntimeError {
    TypeError(String),
    UnknownError,
    UnknownExpression(String),
    UndefinedVariable(String),
    ScopeError(Option<String>),
}

/// Mathematical model of a `RuntimeError`: the category, and for an
/// undefined variable the name that was missing. Human-readable messages
/// are not part of the model.
pub enum ErrV {
    TypeError,
    UnknownError,
    UnknownExpression,
    UndefinedVariable(Seq<char>),
    ScopeError,
}

impl View for RuntimeError {
    type V = ErrV;

    open spec fn view(&self) -> ErrV {
        match self {
            RuntimeError::TypeError(_) => ErrV::TypeError,
            RuntimeError::UnknownError => ErrV::UnknownError,
            RuntimeError::UnknownExpression(_) => ErrV::UnknownExpression,
            RuntimeError::UndefinedVariable(s) => ErrV::UndefinedVariable(s@),
            RuntimeError::ScopeError(_) => ErrV::ScopeError,
        }
    }
}

/// The model of the interpreter's mutable state: the scope chain and the
/// lines written so far.
pub struct StateV {
    pub env: EnvV,
    pub out: Seq<Seq<char>>,
}

/// What a unary operator token does to an evaluated operand.
pub open spec fn apply_unary_v(op: TokenTypeV, v: ObjectV) -> Result<ObjectV, ErrV> {
    match op {
        TokenTypeV::MINUS => neg_v(v),
        TokenTypeV::BANG => not_v(v),
        _ => Err(ErrV::UnknownExpression),
    }
}

/// What a binary operator token does to two evaluated operands.
pub open spec fn apply_binary_v(op: TokenTypeV, a: ObjectV, b: ObjectV) -> Result<ObjectV, ErrV> {
    match op {
        TokenTypeV::BANGEQUAL => Ok(ObjectV::BoolObj(!eq_v(a, b))),
        TokenTypeV::EQUALEQUAL => Ok(ObjectV::BoolObj(eq_v(a, b))),
        TokenTypeV::GREATER => cmp_v(a, b, true, true),
        TokenTypeV::GREATEREQUAL => cmp_v(a, b, false, true),
        TokenTypeV::LESS => cmp_v(a, b, true, false),
        TokenTypeV::LESSEQUAL => cmp_v(a, b, false, false),
        TokenTypeV::MINUS => sub_v(a, b),
        TokenTypeV::PLUS => add_v(a, b),
        TokenTypeV::SLASH => div_v(a, b),
        TokenTypeV::STAR => mul_v(a, b),
        _ => Err(ErrV::UnknownExpression),
    }
}

/// Big-step evaluation of an expression: the value or error it produces, and
/// the scope chain afterwards (an assignment overwrites a binding; every
/// other form leaves the chain as it was). Operands evaluate left to right;
/// `and` and `or` short-circuit on the truthiness of the left operand, which
/// must be a boolean. The value of an assignment is the value the binding
/// held before it.
pub open spec fn eval_expr_v(e: ExprV, env: EnvV) -> (Result<ObjectV, ErrV>, EnvV)
    decreases e,
{
    match e {
        ExprV::NumberLit(n) => (Ok(ObjectV::NumberObj(n)), env),
        ExprV::StringLit(s) => (Ok(ObjectV::StringObj(s)), env),
        ExprV::Boolean(b) => (Ok(ObjectV::BoolObj(b)), env),
        ExprV::Nil => (Ok(ObjectV::NullObj), env),
        ExprV::Grouping(inner) => eval_expr_v(*inner, env),
        ExprV::Variable(name) => (
            match env_get(env, name) {
                Some(v) => Ok(v),
                None => Err(ErrV::UndefinedVariable(name)),
            },
            env,
        ),
        ExprV::Assignment(name, rhs) => {
            let (r, env1) = eval_expr_v(*rhs, env);
            match r {
                Ok(v) => match env_assign(env1, name, v) {
                    Some((env2, prev)) => (Ok(prev), env2),
                    None => (Err(ErrV::UndefinedVariable(name)), env1),
                },
                Err(e) => (Err(e), env1),
            }
        },
        ExprV::Unary(op, sub) => {
            let (r, env1) = eval_expr_v(*sub, env);
            match r {
                Ok(v) => (apply_unary_v(op.token_type, v), env1),
                Err(e) => (Err(e), env1),
            }
        },
        ExprV::Binary(l, op, r) => {
            let (lr, env1) = eval_expr_v(*l, env);
            match lr {
                Ok(lv) => {
                    let (rr, env2) = eval_expr_v(*r, env1);
                    match rr {
                        Ok(rv) => (apply_binary_v(op.token_type, lv, rv), env2),
                        Err(e) => (Err(e), env2),
                    }
                },
                Err(e) => (Err(e), env1),
            }
        },
        ExprV::Logical(l, op, r) => {
            let (lr, env1) = eval_expr_v(*l, env);
            match lr {
                Ok(lv) => match op.token_type {
                    TokenTypeV::AND => match truthy_v(lv) {
                        Ok(true) => eval_expr_v(*r, env1),
                        Ok(false) => (Ok(lv), env1),
                        Err(e) => (Err(e), env1),
                    },
                    TokenTypeV::OR => match truthy_v(lv) {
                        Ok(true) => (Ok(lv), env1),
                        Ok(false) => eval_expr_v(*r, env1),
                        Err(e) => (Err(e), env1),
                    },
                    _ => (Err(ErrV::UnknownExpression), env1),
                },
                Err(e) => (Err(e), env1),
            }
        },
    }
}

/// How one statement (or a statement sequence) ends: normally, at the first
/// runtime error, or with the step budget exhausted.
pub enum StepV {
    Done,
    Failed(ErrV),
    NoFuel,
}

/// Big-step execution of one statement under a step budget. The budget pays
/// one unit per loop iteration and bounds nothing else; a `NoFuel` outcome
/// means a `while` iterated more often than the budget allowed. A block
/// pushes one scope, runs its body, and pops that scope on every way out.
pub open spec fn exec_stmt_v(s: StmtV, st: StateV, fuel: nat) -> (StepV, StateV)
    decreases fuel, s, 0int,
{
    match s {
        StmtV::EXPR(e) => {
            let (r, env1) = eval_expr_v(*e, st.env);
            let st1 = StateV { env: env1, out: st.out };
            match r {
                Ok(_) => (StepV::Done, st1),
                Err(err) => (StepV::Failed(err), st1),
            }
        },
        StmtV::PRINT(e) => {
            let (r, env1) = eval_expr_v(*e, st.env);
            match r {
                Ok(v) => (StepV::Done, StateV { env: env1, out: st.out.push(obj_text(v)) }),
                Err(err) => (StepV::Failed(err), StateV { env: env1, out: st.out }),
            }
        },
        StmtV::VAR(name, init) => {
            let (r, env1) = match init {
                Some(e) => eval_expr_v(*e, st.env),
                None => (Ok(ObjectV::NullObj), st.env),
            };
            match r {
                Ok(v) => (
                    StepV::Done,
                    StateV { env: env_define(env1, name.lexeme, v), out: st.out },
                ),
                Err(err) => (StepV::Failed(err), StateV { env: env1, out: st.out }),
            }
        },
        StmtV::BLOCK(body) => {
            let inner = StateV { env: st.env.push(Seq::empty()), out: st.out };
            let (r, st1) = exec_stmts_v(body, inner, fuel);
            (r, StateV { env: st1.env.drop_last(), out: st1.out })
        },
        StmtV::IF(cond, then, els) => {
            let (r, env1) = eval_expr_v(*cond, st.env);
            let st1 = StateV { env: env1, out: st.out };
            match r {
                Ok(v) => match truthy_v(v) {
                    Ok(true) => exec_stmt_v(*then, st1, fuel),
                    Ok(false) => match els {
                        Some(e) => exec_stmt_v(*e, st1, fuel),
                        None => (StepV::Done, st1),
                    },
                    Err(err) => (StepV::Failed(err), st1),
                },
                Err(err) => (StepV::Failed(err), st1),
            }
        },
        StmtV::WHILE(cond, body) => {
            let (r, env1) = eval_expr_v(*cond, st.env);
            let st1 = StateV { env: env1, out: st.out };
            match r {
                Ok(v) => match truthy_v(v) {
                    Ok(true) => {
                        if fuel == 0 {
                            (StepV::NoFuel, st1)
                        } else {
                            let (br, st2) = exec_stmt_v(*body, st1, fuel);
                            match br {
                                StepV::Done => exec_stmt_v(s, st2, (fuel - 1) as nat),
                                _ => (br, st2),
                            }
                        }
                    },
                    Ok(false) => (StepV::Done, st1),
                    Err(err) => (StepV::Failed(err), st1),
                },
                Err(err) => (StepV::Failed(err), st1),
            }
        },
    }
}

/// Big-step execution of a statement sequence, strictly in order, stopping
/// at the first statement that does not end normally.
pub open spec fn exec_stmts_v(ss: Seq<StmtV>, st: StateV, fuel: nat) -> (StepV, StateV)
    decreases fuel, ss, 1int,
{
    if ss.len() == 0 {
        (StepV::Done, st)
    } else {
        let (r, st1) = exec_stmt_v(ss[0], st, fuel);
        match r {
            StepV::Done => exec_stmts_v(ss.subrange(1, ss.len() as int), st1, fuel),
            _ => (r, st1),
        }
    }
}

/// Evaluating an expression never changes the number of scopes: reads touch
/// nothing and an assignment overwrites a binding in place.
pub proof fn lemma_eval_expr_env_len(e: ExprV, env: EnvV)
    ensures
        eval_expr_v(e, env).1.len() == env.len(),
    decreases e,
{
    match e {
        ExprV::Grouping(inner) => lemma_eval_expr_env_len(*inner, env),
        ExprV::Assignment(name, rhs) => {
            lemma_eval_expr_env_len(*rhs, env);
            let (r, env1) = eval_expr_v(*rhs, env);
            if r is Ok {
                crate::environment::lemma_env_assign_len(env1, name, r->Ok_0);
            }
        },
        ExprV::Unary(_, sub) => lemma_eval_expr_env_len(*sub, env),
        ExprV::Binary(l, _, r) => {
            lemma_eval_expr_env_len(*l, env);
            let (lr, env1) = eval_expr_v(*l, env);
            if lr is Ok {
                lemma_eval_expr_env_len(*r, env1);
            }
        },
        ExprV::Logical(l, op, r) => {
            lemma_eval_expr_env_len(*l, env);
            let (lr, env1) = eval_expr_v(*l, env);
            if lr is Ok {
                lemma_eval_expr_env_len(*r, env1);
            }
        },
        _ => {},
    }
}

/// Law: however a statement ends — normally, at a runtime error, or with the
/// budget exhausted — it leaves exactly as many scopes as it found: every
/// scope a block pushes is popped on every way out, error paths included.
pub proof fn lemma_scope_balance_stmt(s: StmtV, st: StateV, fuel: nat)
    requires
        st.env.len() >= 1,
    ensures
        exec_stmt_v(s, st, fuel).1.env.len() == st.env.len(),
    decreases fuel, s, 0int,
{
    match s {
        StmtV::EXPR(e) => lemma_eval_expr_env_len(*e, st.env),
        StmtV::PRINT(e) => lemma_eval_expr_env_len(*e, st.env),
        StmtV::VAR(name, init) => {
            match init {
                Some(e) => lemma_eval_expr_env_len(*e, st.env),
                None => {},
            }
        },
        StmtV::BLOCK(body) => {
            let inner = StateV { env: st.env.push(Seq::empty()), out: st.out };
            lemma_scope_balance_stmts(body, inner, fuel);
        },
        StmtV::IF(cond, then, els) => {
            lemma_eval_expr_env_len(*cond, st.env);
            let (r, env1) = eval_expr_v(*cond, st.env);
            let st1 = StateV { env: env1, out: st.out };
            if r is Ok {
                match truthy_v(r->Ok_0) {
                    Ok(true) => lemma_scope_balance_stmt(*then, st1, fuel),
                    Ok(false) => {
                        match els {
                            Some(e) => lemma_scope_balance_stmt(*e, st1, fuel),
                            None => {},
                        }
                    },
                    Err(_) => {},
                }
            }
        },
        StmtV::WHILE(cond, body) => {
            lemma_eval_expr_env_len(*cond, st.env);
            let (r, env1) = eval_expr_v(*cond, st.env);
            let st1 = StateV { env: env1, out: st.out };
            if r is Ok && truthy_v(r->Ok_0) == Ok::<bool, ErrV>(true) && fuel > 0 {
                lemma_scope_balance_stmt(*body, st1, fuel);
                let (br, st2) = exec_stmt_v(*body, st1, fuel);
                if br is Done {
                    lemma_scope_balance_stmt(s, st2, (fuel - 1) as nat);
                }
            }
        },
    }
}

/// The sequence form of the scope-balance law.
pub proof fn lemma_scope_balance_stmts(ss: Seq<StmtV>, st: StateV, fuel: nat)
    requires
        st.env.len() >= 1,
    ensures
        exec_stmts_v(ss, st, fuel).1.env.len() == st.env.len(),
    decreases fuel, ss, 1int,
{
    if ss.len() > 0 {
        lemma_scope_balance_stmt(ss[0], st, fuel);
        let (r, st1) = exec_stmt_v(ss[0], st, fuel);
        if r is Done {
            lemma_scope_balance_stmts(ss.subrange(1, ss.len() as int), st1, fuel);
        }
    }
}

/// Whether an expression is made only of number literals, grouping, and the
/// four arithmetic operators.
pub open spec fn is_arith_expr(e: ExprV) -> bool
    decreases e,
{
    match e {
        ExprV::NumberLit(_) => true,
        ExprV::Grouping(inner) => is_arith_expr(*inner),
        ExprV::Binary(l, op, r) => is_arith_op(op.token_type) && is_arith_expr(*l) && is_arith_expr(
            *r,
        ),
        _ => false,
    }
}

/// Whether a token is one of the four arithmetic operators.
pub open spec fn is_arith_op(t: TokenTypeV) -> bool {
    t == TokenTypeV::PLUS || t == TokenTypeV::MINUS || t == TokenTypeV::STAR || t
        == TokenTypeV::SLASH
}

/// The value of a pure arithmetic expression under the number semantics:
/// wrapping 64-bit arithmetic, truncating division, division by zero is
/// zero. The shape of the tree carries the operator precedence the parser
/// gave it.
pub open spec fn arith_value(e: ExprV) -> i64
    decreases e,
{
    match e {
        ExprV::NumberLit(n) => n,
        ExprV::Grouping(inner) => arith_value(*inner),
        ExprV::Binary(l, op, r) => {
            let a = arith_value(*l);
            let b = arith_value(*r);
            match op.token_type {
                TokenTypeV::PLUS => vstd::wrapping::i64_specs::wrapping_add(a, b),
                TokenTypeV::MINUS => vstd::wrapping::i64_specs::wrapping_sub(a, b),
                TokenTypeV::STAR => vstd::wrapping::i64_specs::wrapping_mul(a, b),
                TokenTypeV::SLASH => crate::object::div_trunc(a, b),
                _ => 0,
            }
        },
        _ => 0,
    }
}

/// Law: an expression made only of number literals and `+ - * /` always
/// evaluates without error, touches no variable, and yields exactly the fold
/// of its literals under the number semantics, in the precedence the tree
/// encodes.
pub proof fn lemma_arith_expr(e: ExprV, env: EnvV)
    requires
        is_arith_expr(e),
    ensures
        eval_expr_v(e, env) == (Ok::<ObjectV, ErrV>(ObjectV::NumberObj(arith_value(e))), env),
    decreases e,
{
    match e {
        ExprV::NumberLit(_) => {},
        ExprV::Grouping(inner) => lemma_arith_expr(*inner, env),
        ExprV::Binary(l, op, r) => {
            lemma_arith_expr(*l, env);
            lemma_arith_expr(*r, env);
        },
        _ => {},
    }
}

/// Law: equality between values of different kinds is `false` — and never an
/// error — for every kind pairing, under both the equality and the
/// inequality operator.
pub proof fn lemma_cross_kind_equality(a: ObjectV, b: ObjectV)
    requires
        !crate::object::same_obj_kind(a, b),
    ensures
        !eq_v(a, b),
        apply_binary_v(TokenTypeV::EQUALEQUAL, a, b) == Ok::<ObjectV, ErrV>(
            ObjectV::BoolObj(false),
        ),
        apply_binary_v(TokenTypeV::BANGEQUAL, a, b) == Ok::<ObjectV, ErrV>(ObjectV::BoolObj(true)),
{
}

/// Why execution stopped early: a runtime error, or the step budget ran out.
#[derive(Debug)]
pub enum Halt {
    Failed(RuntimeError),
    NoFuel,
}

/// The model of a statement's executable outcome.
pub open spec fn step_view(r: Result<(), Halt>) -> StepV {
    match r {
        Ok(_) => StepV::Done,
        Err(Halt::Failed(e)) => StepV::Failed(e@),
        Err(Halt::NoFuel) => StepV::NoFuel,
    }
}

/// The models of the lines written so far.
pub open spec fn out_view(v: Vec<String>) -> Seq<Seq<char>> {
    Seq::new(v@.len(), |i: int| v@[i]@)
}

/// The tree-walking evaluator: it owns the environment it mutates and
/// collects the lines that `print` statements write.
#[derive(Debug)]
pub struct Interpreter {
    pub enviroment: Environment,
    pub output: Vec<String>,
}

impl Interpreter {
    /// The environment always holds at least the global scope.
    pub open spec fn wf(&self) -> bool {
        self.enviroment.wf()
    }

    /// The model of the interpreter's state.
    pub open spec fn state(&self) -> StateV {
        StateV { env: self.enviroment@, out: out_view(self.output) }
    }

    /// A fresh interpreter around the given environment, with nothing
    /// written yet.
    pub fn new(enviroment: Environment) -> (it: Interpreter)
        requires
            enviroment.wf(),
        ensures
            it.wf(),
            it.state() == (StateV { env: enviroment@, out: Seq::<Seq<char>>::empty() }),
    {
        let it = Interpreter { enviroment, output: Vec::new() };
        proof {
            assert(out_view(it.output) =~= Seq::<Seq<char>>::empty());
        }
        it
    }

    /// Looks a variable up; a name bound in no scope is an undefined-variable
    /// error.
    fn handle_variable_access(&self, name: &String) -> (r: Result<Object, RuntimeError>)
        ensures
            match r {
                Ok(o) => env_get(self.enviroment@, name@) == Some(o@),
                Err(e) => env_get(self.enviroment@, name@) is None && e@ == ErrV::UndefinedVariable(
                    name@,
                ),
            },
    {
        match self.enviroment.get(name) {
            Some(o) => Ok(o),
            None => Err(RuntimeError::UndefinedVariable(name.clone())),
        }
    }

    /// Assigns an already evaluated value; the expression's value is the one
    /// the binding held before.
    fn handle_assignment(&mut self, name: &String, value: Object) -> (r: Result<
        Object,
        RuntimeError,
    >)
        requires
            old(self).wf(),
        ensures
            final(self).wf(),
            final(self).output == old(self).output,
            match r {
                Ok(prev) => env_assign(old(self).enviroment@, name@, value@) == Some(
                    (final(self).enviroment@, prev@),
                ),
                Err(e) => {
                    &&& env_assign(old(self).enviroment@, name@, value@) is None
                    &&& e@ == ErrV::UndefinedVariable(name@)
                    &&& final(self).enviroment@ == old(self).enviroment@
                },
            },
    {
        self.enviroment.assign(name, value)
    }

    /// Applies a unary operator token to an evaluated operand.
    fn handle_unary(op: &Token, v: Object) -> (r: Result<Object, RuntimeError>)
        ensures
            obj_res_view(r) == apply_unary_v(op@.token_type, v@),
    {
        match &op.token_type {
            crate::token::TokenType::MINUS => v.neg(),
            crate::token::TokenType::BANG => v.not(),
            _ => Err(
                RuntimeError::UnknownExpression(
                    String::from_str("unexpected operator on unary expression"),
                ),
            ),
        }
    }

    /// Applies a binary operator token to two evaluated operands.
    fn handle_binary(op: &Token, l: Object, r: Object) -> (res: Result<Object, RuntimeError>)
        ensures
            obj_res_view(res) == apply_binary_v(op@.token_type, l@, r@),
    {
        match &op.token_type {
            crate::token::TokenType::BANGEQUAL => l.neq(&r),
            crate::token::TokenType::EQUALEQUAL => l.eq(&r),
            crate::token::TokenType::GREATER => l.gt(&r),
            crate::token::TokenType::GREATEREQUAL => l.gte(&r),
            crate::token::TokenType::LESS => l.lt(&r),
            crate::token::TokenType::LESSEQUAL => l.lte(&r),
            crate::token::TokenType::MINUS => l.sub(r),
            crate::token::TokenType::PLUS => l.add(r),
            crate::token::TokenType::SLASH => l.div(r),
            crate::token::TokenType::STAR => l.mul(r),
            _ => Err(
                RuntimeError::UnknownExpression(
                    String::from_str("unexpected token for binary operator"),
                ),
            ),
        }
    }

    /// Evaluates an expression against the current environment, exactly as
    /// the big-step model `eval_expr_v` describes.
    pub fn evaluate_expr(&mut self, expr: &Expr) -> (r: Result<Object, RuntimeError>)
        requires
            old(self).wf(),
        ensures
            final(self).wf(),
            final(self).output == old(self).output,
            ({
                let (rv, env2) = eval_expr_v(expr@, old(self).enviroment@);
                &&& obj_res_view(r) == rv
                &&& final(self).enviroment@ == env2
            }),
        decreases expr,
    {
        proof {
            lemma_eval_expr_env_len(expr@, self.enviroment@);
        }
        match expr {
            Expr::NumberLit(n) => Ok(Object::NumberObj(*n)),
            Expr::StringLit(s) => Ok(Object::StringObj((**s).clone())),
            Expr::Boolean(b) => Ok(Object::BoolObj(*b)),
            Expr::Nil => Ok(Object::NullObj),
            Expr::Grouping(inner) => self.evaluate_expr(inner),
            Expr::Variable(name) => self.handle_variable_access(name),
            Expr::Assignment(name, rhs) => {
                match self.evaluate_expr(rhs) {
                    Ok(v) => self.handle_assignment(name, v),
                    Err(e) => Err(e),
                }
            },
            Expr::Unary(op, sub) => {
                match self.evaluate_expr(sub) {
                    Ok(v) => Self::handle_unary(op, v),
                    Err(e) => Err(e),
                }
            },
            Expr::Binary(l, op, r) => {
                match self.evaluate_expr(l) {
                    Ok(lv) => match self.evaluate_expr(r) {
                        Ok(rv) => Self::handle_binary(op, lv, rv),
                        Err(e) => Err(e),
                    },
                    Err(e) => Err(e),
                }
            },
            Expr::Logical(l, op, r) => {
                match self.evaluate_expr(l) {
                    Ok(lv) => match &op.token_type {
                        crate::token::TokenType::AND => match lv.is_truthy() {
                            Ok(true) => self.evaluate_expr(r),
                            Ok(false) => Ok(lv),
                            Err(e) => Err(e),
                        },
                        crate::token::TokenType::OR => match lv.is_truthy() {
                            Ok(true) => Ok(lv),
                            Ok(false) => self.evaluate_expr(r),
                            Err(e) => Err(e),
                        },
                        _ => Err(
                            RuntimeError::UnknownExpression(
                                String::from_str("expected a logical operator"),
                            ),
                        ),
                    },
                    Err(e) => Err(e),
                }
            },
        }
    }

    /// Executes one statement under a step budget, exactly as the big-step
    /// model `exec_stmt_v` describes.
    pub fn execute_stmt(&mut self, stmt: &Stmt, fuel: u64) -> (r: Result<(), Halt>)
        requires
            old(self).wf(),
        ensures
            final(self).wf(),
            exec_stmt_v(stmt@, old(self).state(), fuel as nat) == (
                step_view(r),
                final(self).state(),
            ),
        decreases fuel, stmt,
    {
        proof {
            lemma_scope_balance_stmt(stmt@, self.state(), fuel as nat);
        }
        match stmt {
            Stmt::EXPR(e) => {
                match self.evaluate_expr(e) {
                    Ok(_) => Ok(()),
                    Err(err) => Err(Halt::Failed(err)),
                }
            },
            Stmt::PRINT(e) => {
                match self.evaluate_expr(e) {
                    Ok(v) => {
                        let line = v.to_text();
                        self.output.push(line);
                        proof {
                            assert(out_view(self.output) =~~= out_view(old(self).output).push(
                                obj_text(v@),
                            ));
                        }
                        Ok(())
                    },
                    Err(err) => Err(Halt::Failed(err)),
                }
            },
            Stmt::VAR(name, init) => {
                let v = match init {
                    Some(e) => match self.evaluate_expr(e) {
                        Ok(v) => v,
                        Err(err) => {
                            return Err(Halt::Failed(err));
                        },
                    },
                    None => Object::NullObj,
                };
                self.enviroment.define(&name.lexeme, v);
                Ok(())
            },
            Stmt::BLOCK(body) => {
                let ghost st0 = self.state();
                let ghost bv = match stmt@ {
                    StmtV::BLOCK(b) => b,
                    _ => Seq::empty(),
                };
                proof {
                    crate::stmt::lemma_seq_to_v(body@);
                }
                let _ = self.enviroment.add_new_local();
                let ghost st_push = self.state();
                proof {
                    assert(st_push == (StateV { env: st0.env.push(Seq::empty()), out: st0.out }));
                }
                let n = body.len();
                let mut i: usize = 0;
                proof {
                    assert(bv.subrange(0, n as int) =~= bv);
                }
                loop
                    invariant
                        self.wf(),
                        i <= n,
                        n == body@.len(),
                        *stmt == Stmt::BLOCK(*body),
                        stmt@ == StmtV::BLOCK(bv),
                        bv == Stmt::seq_to_v(body@),
                        bv.len() == n,
                        forall|k: int| 0 <= k < n ==> bv[k] == body@[k].to_v(),
                        st0 == old(self).state(),
                        st_push == (StateV { env: st0.env.push(Seq::empty()), out: st0.out }),
                        self.enviroment@.len() == st_push.env.len(),
                        st_push.env.len() >= 2,
                        exec_stmts_v(bv, st_push, fuel as nat) == exec_stmts_v(
                            bv.subrange(i as int, n as int),
                            self.state(),
                            fuel as nat,
                        ),
                    ensures
                        i == n,
                        self.wf(),
                        stmt@ == StmtV::BLOCK(bv),
                        st0 == old(self).state(),
                        st_push == (StateV { env: st0.env.push(Seq::empty()), out: st0.out }),
                        self.enviroment@.len() == st_push.env.len(),
                        st_push.env.len() >= 2,
                        exec_stmts_v(bv, st_push, fuel as nat) == (StepV::Done, self.state()),
                    decreases n - i,
                {
                    if i == n {
                        proof {
                            assert(bv.subrange(i as int, n as int).len() == 0);
                        }
                        break ;
                    }
                    let ghost pre = self.state();
                    let sub: &Stmt = &body[i];
                    proof {
                        assert((*stmt)->BLOCK_0 == *body);
                        assert(decreases_to!(*stmt => (*stmt)->BLOCK_0));
                        assert(decreases_to!(*body => body@));
                        assert(decreases_to!(body@ => body@[i as int]));
                    }
                    let r = self.execute_stmt(sub, fuel);
                    proof {
                        lemma_scope_balance_stmt(bv[i as int], pre, fuel as nat);
                        assert(bv.subrange(i as int, n as int)[0] == bv[i as int]);
                    }
                    match r {
                        Ok(_) => {
                            proof {
                                assert(bv.subrange(i as int, n as int).subrange(
                                    1,
                                    (n - i) as int,
                                ) =~= bv.subrange(i as int + 1, n as int));
                            }
                            i = i + 1;
                        },
                        Err(h) => {
                            proof {
                                assert(exec_stmts_v(bv, st_push, fuel as nat) == (
                                    step_view(Err::<(), Halt>(h)),
                                    self.state(),
                                ));
                            }
                            let ghost st_err = self.state();
                            let _ = self.enviroment.remove_local();
                            proof {
                                assert(self.state().env == st_err.env.drop_last());
                                assert(self.state().out == st_err.out);
                            }
                            return Err(h);
                        },
                    }
                }
                let ghost st_done = self.state();
                let _ = self.enviroment.remove_local();
                proof {
                    assert(self.state().env == st_done.env.drop_last());
                    assert(self.state().out == st_done.out);
                }
                Ok(())
            },
            Stmt::IF(cond, then, els) => {
                match self.evaluate_expr(cond) {
                    Ok(v) => match v.is_truthy() {
                        Ok(true) => self.execute_stmt(then, fuel),
                        Ok(false) => match els {
                            Some(e) => self.execute_stmt(e, fuel),
                            None => Ok(()),
                        },
                        Err(err) => Err(Halt::Failed(err)),
                    },
                    Err(err) => Err(Halt::Failed(err)),
                }
            },
            Stmt::WHILE(cond, body) => {
                match self.evaluate_expr(cond) {
                    Ok(v) => match v.is_truthy() {
                        Ok(true) => {
                            if fuel == 0 {
                                Err(Halt::NoFuel)
                            } else {
                                match self.execute_stmt(body, fuel) {
                                    Ok(_) => self.execute_stmt(stmt, fuel - 1),
                                    Err(h) => Err(h),
                                }
                            }
                        },
                        Ok(false) => Ok(()),
                        Err(err) => Err(Halt::Failed(err)),
                    },
                    Err(err) => Err(Halt::Failed(err)),
                }
            },
        }
    }

    /// Runs a program: its statements strictly in order, stopping at the
    /// first one that does not end normally, exactly as `exec_stmts_v`
    /// describes.
    pub fn interpret(&mut self, stmts: &Vec<Stmt>, fuel: u64) -> (r: Result<(), Halt>)
        requires
            old(self).wf(),
        ensures
            final(self).wf(),
            exec_stmts_v(program_view(stmts@), old(self).state(), fuel as nat) == (
                step_view(r),
                final(self).state(),
            ),
    {
        let ghost pv = program_view(stmts@);
        let ghost st0 = self.state();
        let n = stmts.len();
        let mut i: usize = 0;
        proof {
            assert(pv.subrange(0, n as int) =~= pv);
        }
        loop
            invariant
                self.wf(),
                i <= n,
                n == stmts@.len(),
                pv == program_view(stmts@),
                pv.len() == n,
                st0 == old(self).state(),
                exec_stmts_v(pv, st0, fuel as nat) == exec_stmts_v(
                    pv.subrange(i as int, n as int),
                    self.state(),
                    fuel as nat,
                ),
            ensures
                i == n,
                self.wf(),
                st0 == old(self).state(),
                pv == program_view(stmts@),
                exec_stmts_v(pv, st0, fuel as nat) == (StepV::Done, self.state()),
            decreases n - i,
        {
            if i == n {
                proof {
                    assert(pv.subrange(i as int, n as int).len() == 0);
                }
                break ;
            }
            let ghost pre = self.state();
            let r = self.execute_stmt(&stmts[i], fuel);
            proof {
                assert(pv.subrange(i as int, n as int)[0] == pv[i as int]);
            }
            match r {
                Ok(_) => {
                    proof {
                        assert(pv.subrange(i as int, n as int).subrange(1, (n - i) as int)
                            =~= pv.subrange(i as int + 1, n as int));
                    }
                    i = i + 1;
                },
                Err(h) => {
                    proof {
                        assert(exec_stmts_v(pv.subrange(i as int, n as int), pre, fuel as nat) == (
                            step_view(Err::<(), Halt>(h)),
                            self.state(),
                        ));
                    }
                    return Err(h);
                },
            }
        }
        Ok(())
    }
}

} // verus!
