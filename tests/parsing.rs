use interpreter::expr::Expr;
use interpreter::parser::Parser;
use interpreter::scanner::scan;
use interpreter::stmt::Stmt;
use interpreter::token::TokenType;

fn parser(src: &str) -> Parser {
    Parser::new(scan(src).unwrap())
}

#[test]
fn precedence_folds_left() {
    let mut p = parser("1 - 2 - 3 * 4;");
    match p.parse().unwrap() {
        Stmt::Expression(Expr::Binary(l, op, r)) => {
            assert_eq!(op.token_type, TokenType::MINUS);
            assert!(matches!(*l, Expr::Binary(_, _, _)));
            match *r {
                Expr::Binary(_, op2, _) => assert_eq!(op2.token_type, TokenType::STAR),
                _ => panic!("right side is not a product"),
            }
        }
        _ => panic!("not a binary expression statement"),
    }
}

#[test]
fn or_binds_looser_than_and() {
    let mut p = parser("a or b and c;");
    match p.parse().unwrap() {
        Stmt::Expression(Expr::Logical(_, op, r)) => {
            assert_eq!(op.token_type, TokenType::OR);
            assert!(matches!(*r, Expr::Logical(_, _, _)));
        }
        _ => panic!("not a logical expression"),
    }
}

#[test]
fn call_with_arguments() {
    let mut p = parser("f(1, 2, 3);");
    match p.parse().unwrap() {
        Stmt::Expression(Expr::Call(_, paren, args)) => {
            assert_eq!(paren.token_type, TokenType::RIGHT_PAREN);
            assert_eq!(args.len(), 3);
        }
        _ => panic!("not a call"),
    }
}

#[test]
fn next_yields_each_statement_then_none() {
    let mut p = parser("print 1; var a = 2; { a; }");
    assert!(matches!(p.next(), Some(Ok(Stmt::Print(_)))));
    assert!(matches!(p.next(), Some(Ok(Stmt::Declaration(_, Some(_))))));
    assert!(matches!(p.next(), Some(Ok(Stmt::Block(_)))));
    assert!(p.next().is_none());
}

#[test]
fn next_recovers_after_an_error() {
    let mut p = parser("print ; print 2; var x = 3;");
    assert!(matches!(p.next(), Some(Err(_))));
    assert!(matches!(p.next(), Some(Ok(Stmt::Print(_)))));
    assert!(matches!(p.next(), Some(Ok(Stmt::Declaration(_, _)))));
    assert!(p.next().is_none());
}

#[test]
fn for_becomes_block_with_while() {
    let mut p = parser("for (var i = 0; i < 2; i = i + 1) print i;");
    match p.parse().unwrap() {
        Stmt::Block(ss) => {
            assert_eq!(ss.len(), 2);
            assert!(matches!(ss[0], Stmt::Declaration(_, _)));
            match &ss[1] {
                Stmt::While(_, body) => match &**body {
                    Stmt::Block(inner) => {
                        assert_eq!(inner.len(), 2);
                        assert!(matches!(inner[0], Stmt::Print(_)));
                        assert!(matches!(inner[1], Stmt::Expression(Expr::Assignment(_, _))));
                    }
                    _ => panic!("body is not a block"),
                },
                _ => panic!("no while"),
            }
        }
        _ => panic!("not a block"),
    }
}

#[test]
fn function_declaration_shape() {
    let mut p = parser("fun f(a, b) { return a; }");
    match p.parse().unwrap() {
        Stmt::Function(name, params, body) => {
            assert_eq!(name.lexeme, "f");
            assert_eq!(params, vec!["a".to_string(), "b".to_string()]);
            assert!(matches!(*body, Stmt::Block(_)));
        }
        _ => panic!("not a function"),
    }
}

#[test]
fn missing_closing_brace_is_an_error() {
    let mut p = parser("{ print 1;");
    assert!(p.parse().is_err());
}

#[test]
fn unclosed_argument_list_is_an_error() {
    let mut p = parser("f(1, 2;");
    match p.parse() {
        Err(interpreter::error::Error::Parser(_, m, n)) => {
            assert_eq!(m, "Expect ')' after arguments.");
            assert_eq!(n, ";");
        }
        _ => panic!("expected a parse error"),
    }
}

#[test]
fn expression_statement_semicolon_is_optional() {
    let mut p = parser("a = 1 b = 2;");
    assert!(matches!(p.next(), Some(Ok(Stmt::Expression(Expr::Assignment(_, _))))));
    assert!(matches!(p.next(), Some(Ok(Stmt::Expression(Expr::Assignment(_, _))))));
    assert!(p.next().is_none());
}

#[test]
fn recovery_resumes_after_the_semicolon() {
    let ts = interpreter::scanner::Scanner::new("print ; print 1;".to_string())
        .scan_tokens()
        .unwrap();
    let mut p = Parser::new(ts);
    match p.next() {
        Some(Err(interpreter::error::Error::Parser(l, m, n))) => {
            assert_eq!(l, 1);
            assert_eq!(m, "Unexpected Token");
            assert_eq!(n, ";");
        }
        _ => panic!("expected a parse error"),
    }
    match p.next() {
        Some(Ok(Stmt::Print(Expr::Literal(t)))) => assert_eq!(t.lexeme, "1"),
        _ => panic!("expected print 1"),
    }
    assert!(p.next().is_none());
}

#[test]
fn recovery_stops_before_a_statement_keyword() {
    let mut p = parser("var = 1 + 2 var y = 3; print y;");
    assert!(matches!(p.next(), Some(Err(_))));
    assert!(matches!(p.next(), Some(Ok(Stmt::Declaration(_, Some(_))))));
    assert!(matches!(p.next(), Some(Ok(Stmt::Print(_)))));
    assert!(p.next().is_none());
}

#[test]
fn parse_program_lists_every_error_in_order() {
    let mut p = parser("print (1;\nvar = 2;\nprint 3;\n1 = 2;");
    match p.parse_program() {
        Err(es) => {
            let lines: Vec<u32> = es
                .iter()
                .map(|e| match e {
                    interpreter::error::Error::Parser(l, _, _) => *l,
                    _ => panic!("not a parse error"),
                })
                .collect();
            assert_eq!(lines, vec![1, 2, 4]);
        }
        Ok(_) => panic!("expected errors"),
    }
}

#[test]
fn parse_program_returns_all_statements() {
    let mut p = parser("var a = 1; print a; { a = 2; }");
    let ss = p.parse_program().unwrap();
    assert_eq!(ss.len(), 3);
}
