use interpreter::interpreter::Interpreter;

#[test]
fn test_open() {
    let i = Interpreter::new(false);
    assert_eq!(i.scope, 0);
    assert_eq!(1, 1)
}
