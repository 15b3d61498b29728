use interpreter::error::Error;
use interpreter::interpreter::Interpreter;
use interpreter::function::LoxFunction;
use interpreter::run;
use interpreter::stmt::Stmt;
use std::rc::Rc;

fn run_source(src: &str, repl: bool) -> (Result<(), Vec<Error>>, Vec<String>) {
    let mut i = Interpreter::new(repl);
    let r = run(src, &mut i);
    (r, i.take_output())
}

fn runtime_message(r: &Result<(), Vec<Error>>) -> String {
    match r {
        Err(es) => match &es[0] {
            Error::Runtime(_, m, _) => m.clone(),
            other => panic!("not a runtime error: {}", other.fmt()),
        },
        Ok(()) => panic!("no error"),
    }
}

#[test]
fn sum_of_two_variables_prints_three() {
    let (r, out) = run_source("var a = 1; var b = 2; print a + b;", false);
    assert!(r.is_ok());
    assert_eq!(out, vec!["3".to_string()]);
}

#[test]
fn string_plus_number_concatenates() {
    let (r, out) = run_source("\"foo\" + 1", true);
    assert!(r.is_ok());
    assert_eq!(out, vec!["foo1".to_string()]);
}

#[test]
fn number_plus_string_concatenates() {
    let (r, out) = run_source("print 2 + \"x\";", false);
    assert!(r.is_ok());
    assert_eq!(out, vec!["2x".to_string()]);
}

#[test]
fn divide_by_zero_is_a_runtime_error() {
    let (r, out) = run_source("1 / 0", true);
    assert_eq!(runtime_message(&r), "divide by zero");
    assert!(out.is_empty());
}

#[test]
fn function_call_returns_sum() {
    let (r, out) = run_source("fun add(a, b) { return a + b; } print add(2, 3);", false);
    assert!(r.is_ok());
    assert_eq!(out, vec!["5".to_string()]);
}

#[test]
fn while_loop_prints_in_order() {
    let (r, out) = run_source("var i = 0; while (i < 3) { print i; i = i + 1; }", false);
    assert!(r.is_ok());
    assert_eq!(out, vec!["0".to_string(), "1".to_string(), "2".to_string()]);
}

#[test]
fn break_stops_the_loop() {
    let (r, out) = run_source(
        "var i = 0; while (true) { if (i == 2) break; print i; i = i + 1; }",
        false,
    );
    assert!(r.is_ok());
    assert_eq!(out, vec!["0".to_string(), "1".to_string()]);
}

#[test]
fn inner_block_variable_is_gone_after_the_block() {
    let (r, out) = run_source("{ var x = 1; } print x;", false);
    assert_eq!(runtime_message(&r), "variable `x` is undefined");
    assert!(out.is_empty());
}

#[test]
fn and_does_not_evaluate_right_side() {
    let (r, out) = run_source("print false and (1/0);", false);
    assert!(r.is_ok());
    assert_eq!(out, vec!["false".to_string()]);
}

#[test]
fn or_does_not_evaluate_right_side() {
    let (r, out) = run_source("print true or (1/0);", false);
    assert!(r.is_ok());
    assert_eq!(out, vec!["true".to_string()]);
}

#[test]
fn logical_results_are_booleans() {
    let (r, out) = run_source("print 1 and \"a\"; print nil or 0; print nil or 3;", false);
    assert!(r.is_ok());
    assert_eq!(out, vec!["true".to_string(), "false".to_string(), "true".to_string()]);
}

#[test]
fn closure_sees_later_assignment() {
    let (r, out) = run_source(
        "var x = 1; fun show() { return x; } x = 2; print show();",
        false,
    );
    assert!(r.is_ok());
    assert_eq!(out, vec!["2".to_string()]);
}

#[test]
fn break_in_nested_blocks_ends_only_inner_loop() {
    let src = "var n = 0; var i = 0; while (i < 3) { var j = 0; while (true) { { { if (j == 2) { break; } } } j = j + 1; n = n + 1; } i = i + 1; } print n; print i;";
    let (r, out) = run_source(src, false);
    assert!(r.is_ok());
    assert_eq!(out, vec!["6".to_string(), "3".to_string()]);
}

#[test]
fn recursion_through_own_name() {
    let (r, out) = run_source(
        "fun fib(n) { if (n < 2) return n; return fib(n - 1) + fib(n - 2); } print fib(10);",
        false,
    );
    assert!(r.is_ok());
    assert_eq!(out, vec!["55".to_string()]);
}

#[test]
fn counter_closure_keeps_its_scope() {
    let src = "fun make() { var c = 0; fun inc() { c = c + 1; return c; } return inc; } var f = make(); f(); print f();";
    let (r, out) = run_source(src, false);
    assert!(r.is_ok());
    assert_eq!(out, vec!["2".to_string()]);
}

#[test]
fn for_loop_desugars_to_while() {
    let (r, out) = run_source("for (var i = 0; i < 3; i = i + 1) print i * 10;", false);
    assert!(r.is_ok());
    assert_eq!(out, vec!["0".to_string(), "10".to_string(), "20".to_string()]);
}

#[test]
fn for_loop_without_clauses_needs_break() {
    let (r, out) = run_source("var k = 0; for (;;) { k = k + 1; if (k > 4) break; } print k;", false);
    assert!(r.is_ok());
    assert_eq!(out, vec!["5".to_string()]);
}

#[test]
fn if_else_binds_to_nearest_if() {
    let (r, out) = run_source("if (false) if (true) print 1; else print 2; print 3;", false);
    assert!(r.is_ok());
    assert_eq!(out, vec!["3".to_string()]);
}

#[test]
fn repl_echoes_expression_statements() {
    let mut i = Interpreter::new(true);
    assert!(run("var a = 4;", &mut i).is_ok());
    assert!(run("a * 2", &mut i).is_ok());
    assert_eq!(i.take_output(), vec!["8".to_string()]);
}

#[test]
fn file_mode_does_not_echo() {
    let (r, out) = run_source("1 + 2;", false);
    assert!(r.is_ok());
    assert!(out.is_empty());
}

#[test]
fn declarations_persist_across_units() {
    let mut i = Interpreter::new(false);
    assert!(run("var a = 10;", &mut i).is_ok());
    assert!(run("print a - 3;", &mut i).is_ok());
    assert_eq!(i.take_output(), vec!["7".to_string()]);
}

#[test]
fn later_statements_do_not_run_after_runtime_error() {
    let (r, out) = run_source("print 1; print -\"a\"; print 2;", false);
    assert_eq!(runtime_message(&r), "cannot negate non-numeric");
    assert_eq!(out, vec!["1".to_string()]);
}

#[test]
fn display_forms() {
    let (r, out) = run_source(
        "print nil; print true; print !true; print -7; print \"s\"; fun f() {} print f; print f();",
        false,
    );
    assert!(r.is_ok());
    assert_eq!(
        out,
        vec![
            "nil".to_string(),
            "true".to_string(),
            "false".to_string(),
            "-7".to_string(),
            "s".to_string(),
            "<function>".to_string(),
            "nil".to_string()
        ]
    );
}

#[test]
fn arithmetic_and_comparison() {
    let (r, out) = run_source(
        "print 7 / 2; print -7 / 2; print 2 * 3 - 4; print 1 < 2; print 2 <= 2; print 3 > 4; print 4 >= 5; print \"ab\" < \"b\"; print 1 == 1; print 1 != 1; print \"a\" == \"a\"; print nil == false;",
        false,
    );
    assert!(r.is_ok());
    let want: Vec<String> = ["3", "-3", "2", "true", "true", "false", "false", "true", "true", "false", "true", "false"]
        .iter()
        .map(|s| s.to_string())
        .collect();
    assert_eq!(out, want);
}

#[test]
fn truthiness_of_zero_and_empty_string() {
    let (r, out) = run_source("if (0) print 1; else print 2; if (\"\") print 3; else print 4; print !nil;", false);
    assert!(r.is_ok());
    assert_eq!(out, vec!["2".to_string(), "4".to_string(), "true".to_string()]);
}

#[test]
fn assignment_is_right_associative() {
    let (r, out) = run_source("var a; var b; a = b = 5; print a; print b;", false);
    assert!(r.is_ok());
    assert_eq!(out, vec!["5".to_string(), "5".to_string()]);
}

#[test]
fn bare_return_gives_nil() {
    let (r, out) = run_source("fun f() { return; } print f();", false);
    assert!(r.is_ok());
    assert_eq!(out, vec!["nil".to_string()]);
}

#[test]
fn return_leaves_loops_inside_functions() {
    let src = "fun first() { var i = 0; while (true) { i = i + 1; if (i > 3) return i; } } print first();";
    let (r, out) = run_source(src, false);
    assert!(r.is_ok());
    assert_eq!(out, vec!["4".to_string()]);
}

#[test]
fn parameters_shadow_globals() {
    let (r, out) = run_source("var a = 1; fun f(a) { return a * 10; } print f(7); print a;", false);
    assert!(r.is_ok());
    assert_eq!(out, vec!["70".to_string(), "1".to_string()]);
}

#[test]
fn evaluate_reads_globals() {
    let mut i = Interpreter::new(false);
    assert!(run("var g = 41;", &mut i).is_ok());
    let ts = interpreter::scanner::scan("g + 1").unwrap();
    let mut p = interpreter::parser::Parser::new(ts);
    match p.parse().unwrap() {
        interpreter::stmt::Stmt::Expression(e) => {
            let v = i.evaluate(&e).unwrap();
            assert_eq!(v.fmt(), "42");
        }
        _ => panic!("not an expression"),
    }
}

#[test]
fn direct_call_with_wrong_arity_fails() {
    let mut i = Interpreter::new(false);
    let f = LoxFunction::new(0, &vec!["a".to_string()], Rc::new(Stmt::Block(Vec::new())));
    match f.call(&mut i, Vec::new(), 10) {
        Err(Error::Runtime(_, m, _)) => assert_eq!(m, "wrong number of arguments"),
        _ => panic!("expected an arity error"),
    }
    assert_eq!(f.arity(), 1);
}
