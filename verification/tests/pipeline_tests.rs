use lox::interpreter::{Halt, RuntimeError};
use lox::lox::{Lox, RunError};

const FUEL: u64 = 1_000_000;

fn run_ok(src: &str) -> Vec<String> {
    let mut lox = Lox::default();
    lox.run(src.to_string(), FUEL).unwrap();
    lox.output
}

fn run_err(src: &str) -> (RunError, Vec<String>) {
    let mut lox = Lox::default();
    let err = lox.run(src.to_string(), FUEL).unwrap_err();
    (err, lox.output)
}

#[test]
fn excecute_value_negation() {
    let src = String::from("-3");
    let mut lox: Lox = Lox::default();
    let _ = lox.run(src, FUEL);
}

#[test]
fn arithmetic_follows_precedence() {
    assert_eq!(run_ok("print 1 + 2 * 3;"), vec!["7".to_string()]);
    assert_eq!(run_ok("print (1 + 2) * 3;"), vec!["9".to_string()]);
    assert_eq!(run_ok("print 10 - 2 - 3;"), vec!["5".to_string()]);
    assert_eq!(run_ok("print 7 / 2;"), vec!["3".to_string()]);
}

#[test]
fn division_by_zero_prints_zero() {
    assert_eq!(run_ok("print 1 / 0;"), vec!["0".to_string()]);
}

#[test]
fn unary_minus_produces_negative_number() {
    assert_eq!(run_ok("print -3;"), vec!["-3".to_string()]);
}

#[test]
fn shadowing_inside_block() {
    let out = run_ok("var x = 3; { var x = 4; print x; } print x;");
    assert_eq!(out, vec!["4".to_string(), "3".to_string()]);
}

#[test]
fn string_concatenation_prints() {
    assert_eq!(run_ok("print \"a\" + \"b\";"), vec!["ab".to_string()]);
}

#[test]
fn mixed_addition_is_a_type_error_with_no_output() {
    let (err, out) = run_err("print 1 + \"b\";");
    assert!(matches!(
        err,
        RunError::Interrupted(Halt::Failed(RuntimeError::TypeError(_)))
    ));
    assert_eq!(out, Vec::<String>::new());
}

#[test]
fn assignment_to_undefined_name_halts_silently() {
    let (err, out) = run_err("x = 5;");
    assert!(matches!(
        err,
        RunError::Interrupted(Halt::Failed(RuntimeError::UndefinedVariable(_)))
    ));
    assert_eq!(out, Vec::<String>::new());
}

#[test]
fn reading_undefined_name_halts() {
    let (err, _) = run_err("print q;");
    assert!(matches!(
        err,
        RunError::Interrupted(Halt::Failed(RuntimeError::UndefinedVariable(_)))
    ));
}

#[test]
fn cross_kind_equality_is_false_never_an_error() {
    assert_eq!(run_ok("print 1 == \"a\";"), vec!["false".to_string()]);
    assert_eq!(run_ok("print 1 == true;"), vec!["false".to_string()]);
    assert_eq!(run_ok("print nil == 0;"), vec!["false".to_string()]);
    assert_eq!(run_ok("print nil != 0;"), vec!["true".to_string()]);
}

#[test]
fn condition_must_be_boolean() {
    let (err, _) = run_err("if (1) { print 1; }");
    assert!(matches!(
        err,
        RunError::Interrupted(Halt::Failed(RuntimeError::TypeError(_)))
    ));
}

#[test]
fn if_else_branches() {
    assert_eq!(
        run_ok("if (true) { print 1; } else { print 2; }"),
        vec!["1".to_string()]
    );
    assert_eq!(
        run_ok("if (false) { print 1; } else { print 2; }"),
        vec!["2".to_string()]
    );
}

#[test]
fn while_loop_counts() {
    let out = run_ok("var i = 0; while (i < 3) { print i; i = i + 1; }");
    assert_eq!(
        out,
        vec!["0".to_string(), "1".to_string(), "2".to_string()]
    );
}

#[test]
fn endless_loop_exhausts_the_budget() {
    let mut lox = Lox::default();
    let err = lox
        .run("while (true) { print 1; }".to_string(), 5)
        .unwrap_err();
    assert!(matches!(err, RunError::Interrupted(Halt::NoFuel)));
}

#[test]
fn logical_operators_short_circuit() {
    // the right side never runs, so the undefined name is not an error
    assert_eq!(run_ok("print false and q;"), vec!["false".to_string()]);
    assert_eq!(run_ok("print true or q;"), vec!["true".to_string()]);
    assert_eq!(run_ok("print true and false;"), vec!["false".to_string()]);
    assert_eq!(run_ok("print false or true;"), vec!["true".to_string()]);
}

#[test]
fn assignment_evaluates_to_the_previous_value() {
    let out = run_ok("var x = 1; print x = 5; print x;");
    assert_eq!(out, vec!["1".to_string(), "5".to_string()]);
}

#[test]
fn var_without_initializer_is_null() {
    assert_eq!(run_ok("var x; print x;"), vec!["".to_string()]);
}

#[test]
fn empty_source_runs_to_completion() {
    assert_eq!(run_ok(""), Vec::<String>::new());
}

#[test]
fn parse_error_aborts_with_nothing_printed() {
    let (err, out) = run_err("print 1; print ;");
    assert!(matches!(err, RunError::ParseFailed(_)));
    assert_eq!(out, Vec::<String>::new());
}

#[test]
fn scan_diagnostic_is_recorded_and_scanning_continues() {
    let mut lox = Lox::default();
    lox.run("@ print 1;".to_string(), FUEL).unwrap();
    assert!(lox.had_error);
    assert_eq!(lox.diagnostics.len(), 1);
    assert_eq!(lox.diagnostics[0].message, "Unexpected character");
    assert_eq!(lox.output, vec!["1".to_string()]);
}

#[test]
fn error_inside_block_keeps_earlier_output() {
    // side effects before the failing statement are not rolled back
    let (err, out) = run_err("print 1; { print 2; q = 3; } print 4;");
    assert!(matches!(
        err,
        RunError::Interrupted(Halt::Failed(RuntimeError::UndefinedVariable(_)))
    ));
    assert_eq!(out, vec!["1".to_string(), "2".to_string()]);
}

#[test]
fn comments_are_discarded() {
    let out = run_ok("// heading\nprint 1; /* in\nthe middle */ print 2;");
    assert_eq!(out, vec!["1".to_string(), "2".to_string()]);
}

#[test]
fn wrapping_addition_at_the_boundary() {
    let out = run_ok("print 9223372036854775807 + 1;");
    assert_eq!(out, vec!["-9223372036854775808".to_string()]);
}
