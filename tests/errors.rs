use interpreter::error::Error;
use interpreter::interpreter::Interpreter;
use interpreter::run;

fn first_error(src: &str) -> Error {
    let mut i = Interpreter::new(false);
    match run(src, &mut i) {
        Err(mut es) => es.remove(0),
        Ok(()) => panic!("no error for {}", src),
    }
}

fn runtime(src: &str) -> (u32, String, String) {
    match first_error(src) {
        Error::Runtime(l, m, n) => (l, m, n),
        other => panic!("not a runtime error: {}", other.fmt()),
    }
}

#[test]
fn subtracting_a_string_fails() {
    assert_eq!(runtime("print 1 - \"a\";").1, "cannot subtract non-numerics");
}

#[test]
fn multiplying_nil_fails() {
    assert_eq!(runtime("print nil * 2;").1, "cannot multiply non-numerics");
}

#[test]
fn dividing_a_boolean_fails() {
    assert_eq!(runtime("print true / 2;").1, "cannot divide non-numerics");
}

#[test]
fn adding_booleans_fails() {
    assert_eq!(runtime("print true + 1;").1, "cannot add mixed types");
}

#[test]
fn comparing_mixed_kinds_fails() {
    assert_eq!(runtime("print 1 < \"a\";").1, "cannot compare types");
}

#[test]
fn calling_a_number_fails() {
    assert_eq!(runtime("var a = 1; a();").1, "not callable");
}

#[test]
fn wrong_arity_fails() {
    assert_eq!(runtime("fun f(a) {} f(1, 2);").1, "wrong number of arguments");
}

#[test]
fn overflow_is_reported() {
    assert_eq!(runtime("print 9223372036854775807 + 1;").1, "numeric overflow");
    assert_eq!(runtime("print -9223372036854775807 - 2;").1, "numeric overflow");
}

#[test]
fn redefinition_in_one_scope_fails() {
    let (line, msg, near) = runtime("var a = 1;\nvar a = 2;");
    assert_eq!(line, 2);
    assert_eq!(msg, "variable `a` already defined");
    assert_eq!(near, "a");
}

#[test]
fn shadowing_an_outer_scope_is_allowed() {
    let mut i = Interpreter::new(false);
    assert!(run("var a = 1; { var a = 2; print a; } print a;", &mut i).is_ok());
    assert_eq!(i.take_output(), vec!["2".to_string(), "1".to_string()]);
}

#[test]
fn assigning_an_undefined_name_fails() {
    let (line, msg, _) = runtime("\n\nb = 3;");
    assert_eq!(line, 3);
    assert_eq!(msg, "variable `b` is undefined");
}

#[test]
fn divide_by_zero_is_located() {
    let (line, msg, near) = runtime("var z = 0;\nprint 5 / z;");
    assert_eq!((line, msg.as_str(), near.as_str()), (2, "divide by zero", "/"));
}

#[test]
fn break_outside_a_loop_is_an_error() {
    match first_error("\nbreak;") {
        Error::Break(l) => assert_eq!(l, 2),
        other => panic!("unexpected {}", other.fmt()),
    }
}

#[test]
fn return_outside_a_function_is_an_error() {
    match first_error("return 4;") {
        Error::Return(l, v) => {
            assert_eq!(l, 1);
            assert_eq!(v.fmt(), "4");
        }
        other => panic!("unexpected {}", other.fmt()),
    }
}

#[test]
fn error_text_formats() {
    let e = first_error("print 1 / 0;");
    assert_eq!(e.fmt(), "Runtime Error at [line: 1] divide by zero : near / ");
    assert_eq!(e.description(), "runtime error");
    assert_eq!(Error::Break(12).fmt(), "Runtime Error [line 12] unexpected break statement");
    let b = Error::Break(3).boxed();
    assert_eq!(b.description(), "break error");
}

#[test]
fn lexical_error_stops_the_unit() {
    let mut i = Interpreter::new(false);
    match run("print 1; @", &mut i) {
        Err(es) => {
            assert_eq!(es.len(), 1);
            match &es[0] {
                Error::Lexical(l, m, n) => {
                    assert_eq!(*l, 1);
                    assert_eq!(m, "unexpected character");
                    assert_eq!(n, "@");
                }
                other => panic!("unexpected {}", other.fmt()),
            }
        }
        Ok(()) => panic!("no error"),
    }
    assert!(i.take_output().is_empty());
}

#[test]
fn parse_errors_are_all_reported_and_nothing_runs() {
    let mut i = Interpreter::new(false);
    match run("print 1;\nprint (2;\nvar = 3;\nprint 4;", &mut i) {
        Err(es) => {
            assert_eq!(es.len(), 2);
            match (&es[0], &es[1]) {
                (Error::Parser(l1, m1, _), Error::Parser(l2, m2, n2)) => {
                    assert_eq!(*l1, 2);
                    assert_eq!(m1, "Expect ')' after expression.");
                    assert_eq!(*l2, 3);
                    assert_eq!(m2, "Expect variable name.");
                    assert_eq!(n2, "=");
                }
                _ => panic!("not parse errors"),
            }
        }
        Ok(()) => panic!("no error"),
    }
    assert!(i.take_output().is_empty());
}

#[test]
fn missing_semicolon_at_end_names_end() {
    match first_error("print 1") {
        Error::Parser(_, m, n) => {
            assert_eq!(m, "Expect ';' after value.");
            assert_eq!(n, "end");
        }
        other => panic!("unexpected {}", other.fmt()),
    }
}

#[test]
fn invalid_assignment_target_fails() {
    match first_error("1 = 2;") {
        Error::Parser(_, m, _) => assert_eq!(m, "Unexpected Token"),
        other => panic!("unexpected {}", other.fmt()),
    }
}
