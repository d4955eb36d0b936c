use rowshell::commands::closure::enter;
use rowshell::lang::errors::JobError;
use rowshell::lang::scope::Scopes;
use rowshell::lang::table::Argument;
use rowshell::lang::value::{Closure, Value};

#[test]
fn invocation_gets_its_own_scope() {
    let mut scopes = Scopes::new();
    let captured = scopes.create(None);
    scopes.declare(captured, "limit", Value::Integer(2)).unwrap();
    scopes.declare(captured, "value", Value::Integer(0)).unwrap();
    let closure = Closure { captured_scope: captured, body: 1 };
    let arguments = vec![
        Argument::named("value", Value::Integer(7)),
        Argument::unnamed(Value::Bool(true)),
        Argument::named("value", Value::Integer(8)),
    ];
    let first = enter(&mut scopes, &closure, &arguments).unwrap();
    assert_eq!(scopes.lookup(first, "value"), Ok(&Value::Integer(8)));
    assert_eq!(scopes.lookup(first, "limit"), Ok(&Value::Integer(2)));
    assert_eq!(scopes.lookup(captured, "value"), Ok(&Value::Integer(0)));
    scopes.declare(first, "local", Value::Empty).unwrap();
    let second = enter(&mut scopes, &closure, &vec![]).unwrap();
    assert_ne!(first, second);
    assert_eq!(scopes.lookup(second, "local"), Err(JobError::UnknownName));
    assert_eq!(scopes.lookup(second, "value"), Ok(&Value::Integer(0)));
}

#[test]
fn invocation_under_a_frozen_scope() {
    let mut scopes = Scopes::new();
    let captured = scopes.create(None);
    scopes.readonly(captured).unwrap();
    let closure = Closure { captured_scope: captured, body: 1 };
    let scope = enter(&mut scopes, &closure, &vec![Argument::named("x", Value::Integer(1))]).unwrap();
    assert_eq!(scopes.lookup(scope, "x"), Ok(&Value::Integer(1)));
    assert_eq!(scopes.is_readonly(scope), false);
    assert_eq!(scopes.lookup(captured, "x"), Err(JobError::UnknownName));
}

#[test]
fn invocation_needs_its_captured_scope() {
    let mut scopes = Scopes::new();
    let closure = Closure { captured_scope: 3, body: 1 };
    assert_eq!(enter(&mut scopes, &closure, &vec![]), Err(JobError::UnknownScope));
    assert_eq!(scopes.len(), 0);
}
