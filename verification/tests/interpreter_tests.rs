use lox::environment::Environment;
use lox::expr::Expr;
use lox::interpreter::{Interpreter, RuntimeError};
use lox::object::Object;
use lox::token::{Token, TokenType};

#[test]
fn add_numbers_wraps() {
    let r = Object::NumberObj(2).add(Object::NumberObj(3)).unwrap();
    assert_eq!(r, Object::NumberObj(5));
    let w = Object::NumberObj(i64::MAX).add(Object::NumberObj(1)).unwrap();
    assert_eq!(w, Object::NumberObj(i64::MIN));
}

#[test]
fn add_strings_concatenates() {
    let r = Object::StringObj("a".to_string())
        .add(Object::StringObj("b".to_string()))
        .unwrap();
    assert_eq!(r, Object::StringObj("ab".to_string()));
}

#[test]
fn add_mixed_kinds_is_type_error() {
    let r = Object::NumberObj(1).add(Object::StringObj("b".to_string()));
    assert!(matches!(r, Err(RuntimeError::TypeError(_))));
}

#[test]
fn division_truncates_toward_zero() {
    let q = Object::NumberObj(7).div(Object::NumberObj(2)).unwrap();
    assert_eq!(q, Object::NumberObj(3));
    let nq = Object::NumberObj(-7).div(Object::NumberObj(2)).unwrap();
    assert_eq!(nq, Object::NumberObj(-3));
}

#[test]
fn division_by_zero_yields_zero() {
    let q = Object::NumberObj(5).div(Object::NumberObj(0)).unwrap();
    assert_eq!(q, Object::NumberObj(0));
}

#[test]
fn division_min_by_minus_one_wraps() {
    let q = Object::NumberObj(i64::MIN)
        .div(Object::NumberObj(-1))
        .unwrap();
    assert_eq!(q, Object::NumberObj(i64::MIN));
}

#[test]
fn negation_and_not() {
    assert_eq!(
        Object::NumberObj(3).neg().unwrap(),
        Object::NumberObj(-3)
    );
    assert_eq!(
        Object::BoolObj(true).not().unwrap(),
        Object::BoolObj(false)
    );
    assert!(matches!(
        Object::StringObj("x".to_string()).neg(),
        Err(RuntimeError::TypeError(_))
    ));
    assert!(matches!(
        Object::NumberObj(3).not(),
        Err(RuntimeError::TypeError(_))
    ));
}

#[test]
fn cross_kind_equality_is_false_for_every_pairing() {
    let values = || {
        vec![
            Object::NumberObj(0),
            Object::StringObj("".to_string()),
            Object::BoolObj(false),
            Object::NullObj,
        ]
    };
    for (i, a) in values().into_iter().enumerate() {
        for (j, b) in values().into_iter().enumerate() {
            let r = a.eq(&b).unwrap();
            if i == j {
                assert_eq!(r, Object::BoolObj(true));
            } else {
                assert_eq!(r, Object::BoolObj(false));
            }
            let n = a.neq(&b).unwrap();
            assert_eq!(n, Object::BoolObj(i != j));
        }
    }
}

#[test]
fn ordering_comparisons() {
    assert_eq!(
        Object::NumberObj(2).lt(&Object::NumberObj(3)).unwrap(),
        Object::BoolObj(true)
    );
    assert_eq!(
        Object::NumberObj(3).gte(&Object::NumberObj(3)).unwrap(),
        Object::BoolObj(true)
    );
    assert_eq!(
        Object::StringObj("abc".to_string())
            .lt(&Object::StringObj("abd".to_string()))
            .unwrap(),
        Object::BoolObj(true)
    );
    assert_eq!(
        Object::BoolObj(false).lt(&Object::BoolObj(true)).unwrap(),
        Object::BoolObj(true)
    );
    assert!(matches!(
        Object::NumberObj(1).lt(&Object::BoolObj(true)),
        Err(RuntimeError::TypeError(_))
    ));
}

#[test]
fn value_text_forms() {
    assert_eq!(Object::NumberObj(65).to_text(), "65");
    assert_eq!(Object::NumberObj(-3).to_text(), "-3");
    assert_eq!(Object::NumberObj(i64::MIN).to_text(), "-9223372036854775808");
    assert_eq!(Object::StringObj("hey".to_string()).to_text(), "hey");
    assert_eq!(Object::BoolObj(true).to_text(), "true");
    assert_eq!(Object::NullObj.to_text(), "");
}

#[test]
fn environment_define_get_assign() {
    let mut env = Environment::new();
    env.define(&"x".to_string(), Object::NumberObj(1));
    assert_eq!(env.get(&"x".to_string()), Some(Object::NumberObj(1)));
    // an assignment returns the value the binding held before
    let prev = env.assign(&"x".to_string(), Object::NumberObj(2)).unwrap();
    assert_eq!(prev, Object::NumberObj(1));
    assert_eq!(env.get(&"x".to_string()), Some(Object::NumberObj(2)));
}

#[test]
fn environment_assign_undefined_fails() {
    let mut env = Environment::new();
    let r = env.assign(&"q".to_string(), Object::NumberObj(1));
    assert!(matches!(r, Err(RuntimeError::UndefinedVariable(_))));
    // and no binding was created
    assert_eq!(env.get(&"q".to_string()), None);
}

#[test]
fn environment_shadowing_is_discarded() {
    let mut env = Environment::new();
    env.define(&"x".to_string(), Object::NumberObj(3));
    env.add_new_local().unwrap();
    env.define(&"x".to_string(), Object::NumberObj(4));
    assert_eq!(env.get(&"x".to_string()), Some(Object::NumberObj(4)));
    env.remove_local().unwrap();
    assert_eq!(env.get(&"x".to_string()), Some(Object::NumberObj(3)));
}

#[test]
fn environment_assignment_reaches_outer_scope() {
    let mut env = Environment::new();
    env.define(&"x".to_string(), Object::NumberObj(3));
    env.add_new_local().unwrap();
    env.assign(&"x".to_string(), Object::NumberObj(9)).unwrap();
    env.remove_local().unwrap();
    assert_eq!(env.get(&"x".to_string()), Some(Object::NumberObj(9)));
}

#[test]
fn environment_global_scope_is_never_removable() {
    let mut env = Environment::new();
    let r = env.remove_local();
    assert!(matches!(r, Err(RuntimeError::ScopeError(_))));
}

#[test]
fn unknown_operator_in_tree_is_reported() {
    // a malformed tree: a comma token in operator position
    let expr = Expr::Binary(
        Box::new(Expr::NumberLit(1)),
        Box::new(Token::new(TokenType::COMMA, ",".to_string(), 0)),
        Box::new(Expr::NumberLit(2)),
    );
    let mut interpreter = Interpreter::new(Environment::new());
    let r = interpreter.evaluate_expr(&expr);
    assert!(matches!(r, Err(RuntimeError::UnknownExpression(_))));
}

#[test]
fn evaluating_negation_produces_minus_three() {
    let expr = Expr::Unary(
        Box::new(Token::new(TokenType::MINUS, "-".to_string(), 0)),
        Box::new(Expr::NumberLit(3)),
    );
    let mut interpreter = Interpreter::new(Environment::new());
    let r = interpreter.evaluate_expr(&expr).unwrap();
    assert_eq!(r, Object::NumberObj(-3));
}
