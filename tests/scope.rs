use pascal_interpreter::scope::Scope;

#[test]
fn store_starts_empty_and_overwrites() {
    let mut scope = Scope::new();
    assert!(scope.get(&"x".to_string()).is_none());
    scope.insert("x".to_string(), 1);
    scope.insert("y".to_string(), 2);
    scope.insert("x".to_string(), 3);
    assert_eq!(scope.get(&"x".to_string()), Some(&3));
    assert_eq!(scope.get(&"y".to_string()), Some(&2));
    assert!(scope.get(&"z".to_string()).is_none());
}
