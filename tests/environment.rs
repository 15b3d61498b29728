use interpreter::env::Env;
use interpreter::error::Error;
use interpreter::object::Object;
use interpreter::token::Literal;

fn num(n: i64) -> Object {
    Object::Literal(Literal::Number(n))
}

#[test]
fn define_then_get_same_scope() {
    let mut e = Env::new();
    let x = "x".to_string();
    assert!(e.define(0, &x, num(5)).is_ok());
    let v = e.get(0, &x).unwrap();
    assert!(v.eq(&num(5)));
}

#[test]
fn second_define_in_same_scope_fails() {
    let mut e = Env::new();
    let x = "x".to_string();
    assert!(e.define(0, &x, num(1)).is_ok());
    match e.define(0, &x, num(2)) {
        Err(Error::Runtime(_, m, _)) => assert_eq!(m, "variable `x` already defined"),
        _ => panic!("expected a duplicate definition error"),
    }
    assert!(e.get(0, &x).unwrap().eq(&num(1)));
}

#[test]
fn child_scope_sees_and_assigns_outer() {
    let mut e = Env::new();
    let x = "x".to_string();
    e.define(0, &x, num(1)).unwrap();
    let c = e.with_parent(0);
    assert!(e.get(c, &x).unwrap().eq(&num(1)));
    assert!(e.assign(c, &x, num(9)).unwrap().eq(&num(9)));
    assert!(e.get(0, &x).unwrap().eq(&num(9)));
    e.define(c, &x, num(3)).unwrap();
    assert!(e.get(c, &x).unwrap().eq(&num(3)));
    assert!(e.get(0, &x).unwrap().eq(&num(9)));
    let g = e.with_globals(c);
    assert_eq!(e.scopes[g].parent, Some(0));
}

#[test]
fn undefined_name_fails() {
    let mut e = Env::new();
    let y = "y".to_string();
    assert!(e.get(0, &y).is_err());
    match e.assign(0, &y, num(1)) {
        Err(Error::Runtime(_, m, _)) => assert_eq!(m, "variable `y` is undefined"),
        _ => panic!("expected an undefined variable error"),
    }
}

#[test]
fn values_compare_and_display() {
    let a = Object::Literal(Literal::StringLit("ab".to_string()));
    let b = Object::Literal(Literal::StringLit("b".to_string()));
    assert_eq!(a.partial_cmp(&b), Some(std::cmp::Ordering::Less));
    assert_eq!(num(2).partial_cmp(&num(2)), Some(std::cmp::Ordering::Equal));
    assert_eq!(num(2).partial_cmp(&a), None);
    assert!(!num(0).is_truthy());
    assert!(Object::Func(0).is_truthy());
    assert!(Object::Func(1).eq(&Object::Func(1)));
    assert!(!Object::Func(1).eq(&Object::Func(2)));
    assert_eq!(num(-120).fmt(), "-120");
    assert_eq!(num(i64::MIN).fmt(), "-9223372036854775808");
}
