use rowshell::commands::declare;
use rowshell::commands::var;
use rowshell::commands::var::{let_, unset, use_, ExecutionContext};
use rowshell::lang::errors::{ErrorKind, JobError};
use rowshell::lang::scope::{Entry, Scopes};
use rowshell::lang::table::{Argument, ColumnType, Row};
use rowshell::lang::value::{Builtin, OutputType, Value, ValueType};

fn context(env: usize, arguments: Vec<Argument>) -> ExecutionContext {
    ExecutionContext { arguments, env }
}

#[test]
fn let_declares_each_argument() {
    let mut scopes = Scopes::new();
    let s = scopes.create(None);
    let r = let_(
        &mut scopes,
        &context(s, vec![Argument::named("a", Value::Integer(1)), Argument::named("b", Value::Bool(true))]),
    );
    assert_eq!(r, Ok(Value::Empty));
    assert_eq!(scopes.lookup(s, "a"), Ok(&Value::Integer(1)));
    assert_eq!(scopes.lookup(s, "b"), Ok(&Value::Bool(true)));
}

#[test]
fn let_needs_names() {
    let mut scopes = Scopes::new();
    let s = scopes.create(None);
    let r = let_(
        &mut scopes,
        &context(s, vec![Argument::named("a", Value::Integer(1)), Argument::unnamed(Value::Integer(2))]),
    );
    assert_eq!(r, Err(JobError::MissingVariableName));
    assert_eq!(JobError::MissingVariableName.message(), "Missing variable name");
    assert_eq!(scopes.lookup(s, "a"), Ok(&Value::Integer(1)));
}

#[test]
fn set_assigns_bound_names_only() {
    let mut scopes = Scopes::new();
    let s = scopes.create(None);
    scopes.declare(s, "a", Value::Integer(1)).unwrap();
    assert_eq!(var::set(&mut scopes, &context(s, vec![Argument::named("a", Value::Integer(2))])), Ok(Value::Empty));
    assert_eq!(scopes.lookup(s, "a"), Ok(&Value::Integer(2)));
    assert_eq!(
        var::set(&mut scopes, &context(s, vec![Argument::named("b", Value::Integer(2))])),
        Err(JobError::UnknownName)
    );
    assert_eq!(
        var::set(&mut scopes, &context(s, vec![Argument::unnamed(Value::Integer(2))])),
        Err(JobError::MissingVariableName)
    );
    assert_eq!(scopes.lookup(s, "b"), Err(JobError::UnknownName));
}

#[test]
fn unset_removes_named_variables() {
    let mut scopes = Scopes::new();
    let s = scopes.create(None);
    scopes.declare(s, "a", Value::Integer(1)).unwrap();
    scopes.declare(s, "b", Value::Integer(2)).unwrap();
    let r = unset(&mut scopes, &context(s, vec![Argument::unnamed(Value::String("a".to_string()))]));
    assert_eq!(r, Ok(Value::Empty));
    assert_eq!(scopes.lookup(s, "a"), Err(JobError::UnknownName));
    assert_eq!(scopes.lookup(s, "b"), Ok(&Value::Integer(2)));
    assert_eq!(
        unset(&mut scopes, &context(s, vec![Argument::unnamed(Value::String(String::new()))])),
        Err(JobError::IllegalVariableName)
    );
    assert_eq!(
        unset(&mut scopes, &context(s, vec![Argument::unnamed(Value::Integer(1))])),
        Err(JobError::IllegalVariableName)
    );
    assert_eq!(
        unset(&mut scopes, &context(s, vec![Argument::unnamed(Value::String("a".to_string()))])),
        Err(JobError::UnknownName)
    );
    assert_eq!(JobError::IllegalVariableName.kind(), ErrorKind::Argument);
    assert_eq!(JobError::IllegalVariableName.message(), "Illegal variable name");
}

#[test]
fn use_imports_scopes() {
    let mut scopes = Scopes::new();
    let s = scopes.create(None);
    let other = scopes.create(None);
    scopes.declare(other, "sqrt", Value::Integer(4)).unwrap();
    assert_eq!(use_(&mut scopes, &context(s, vec![Argument::unnamed(Value::Scope(other))])), Ok(Value::Empty));
    assert_eq!(scopes.lookup(s, "sqrt"), Ok(&Value::Integer(4)));
    assert_eq!(
        use_(&mut scopes, &context(s, vec![Argument::named("m", Value::Scope(other))])),
        Err(JobError::ExpectedScopes)
    );
    assert_eq!(
        use_(&mut scopes, &context(s, vec![Argument::unnamed(Value::Integer(1))])),
        Err(JobError::ExpectedScopes)
    );
    assert_eq!(
        use_(&mut scopes, &context(s, vec![Argument::unnamed(Value::Scope(44))])),
        Err(JobError::UnknownScope)
    );
    assert_eq!(JobError::ExpectedScopes.message(), "Expected all arguments to be scopes");
}

#[test]
fn commands_on_a_frozen_scope() {
    let mut scopes = Scopes::new();
    let s = scopes.create(None);
    scopes.declare(s, "a", Value::Integer(1)).unwrap();
    scopes.readonly(s).unwrap();
    assert_eq!(
        let_(&mut scopes, &context(s, vec![Argument::named("z", Value::Integer(1))])),
        Err(JobError::ReadonlyScope)
    );
    assert_eq!(
        var::set(&mut scopes, &context(s, vec![Argument::named("a", Value::Integer(1))])),
        Err(JobError::ReadonlyScope)
    );
    assert_eq!(
        unset(&mut scopes, &context(s, vec![Argument::unnamed(Value::String("a".to_string()))])),
        Err(JobError::ReadonlyScope)
    );
    assert_eq!(scopes.lookup(s, "a"), Ok(&Value::Integer(1)));
    assert_eq!(scopes.lookup(s, "z"), Err(JobError::UnknownName));
}

#[test]
fn library_is_declared_and_frozen() {
    let mut scopes = Scopes::new();
    let root = scopes.create(None);
    assert_eq!(declare(&mut scopes, root), Ok(()));
    assert_eq!(scopes.is_readonly(root), true);
    let var = match scopes.lookup(root, "var") {
        Ok(Value::Scope(id)) => *id,
        other => panic!("no namespace: {:?}", other),
    };
    let split = match scopes.lookup(root, "split") {
        Ok(Value::Scope(id)) => *id,
        other => panic!("no namespace: {:?}", other),
    };
    assert_eq!(scopes.lookup(var, "let"), Ok(&Value::Command(Builtin::VarLet)));
    assert_eq!(scopes.lookup(var, "set"), Ok(&Value::Command(Builtin::VarSet)));
    assert_eq!(scopes.lookup(var, "unset"), Ok(&Value::Command(Builtin::VarUnset)));
    assert_eq!(scopes.lookup(var, "env"), Ok(&Value::Command(Builtin::VarEnv)));
    assert_eq!(scopes.lookup(var, "use"), Ok(&Value::Command(Builtin::VarUse)));
    assert_eq!(scopes.lookup(split, "from"), Ok(&Value::Command(Builtin::SplitFrom)));
    assert_eq!(scopes.lookup(split, "var"), Ok(&Value::Scope(var)));
    assert_eq!(declare(&mut scopes, root), Err(JobError::ReadonlyScope));
    assert_eq!(scopes.len(), 3);
    assert_eq!(declare(&mut scopes, 99), Err(JobError::UnknownScope));
}

#[test]
fn rows_are_checked_against_schemas() {
    let schema = vec![ColumnType::new("n", ValueType::Integer), ColumnType::unnamed(ValueType::Unknown)];
    assert_eq!(Row::new(vec![Value::Integer(1), Value::Bool(true)]).validate(&schema), Ok(()));
    assert_eq!(Row::new(vec![Value::Integer(1), Value::Empty]).validate(&schema), Ok(()));
    assert_eq!(
        Row::new(vec![Value::Bool(true), Value::Integer(1)]).validate(&schema),
        Err(JobError::ColumnTypeMismatch)
    );
    assert_eq!(Row::new(vec![Value::Integer(1)]).validate(&schema), Err(JobError::ArityMismatch));
    assert_eq!(JobError::ArityMismatch.kind(), ErrorKind::Type);
    assert_eq!(JobError::ColumnTypeMismatch.kind(), ErrorKind::Type);
}

#[test]
fn types_of_values() {
    assert_eq!(Value::Empty.value_type(), ValueType::Empty);
    assert_eq!(Value::Float(0).value_type(), ValueType::Float);
    assert_eq!(Value::String(String::new()).value_type(), ValueType::String);
    assert_eq!(Value::Scope(1).value_type(), ValueType::Scope);
    assert_eq!(ValueType::Unknown.is_assignable(ValueType::Bool), true);
    assert_eq!(ValueType::Bool.is_assignable(ValueType::Bool), true);
    assert_eq!(ValueType::Bool.is_assignable(ValueType::Integer), false);
    assert_eq!(ValueType::Bool.is_assignable(ValueType::Unknown), false);
    assert_eq!(ValueType::Integer.name(), "integer");
    assert_eq!(Value::String("s".to_string()).duplicate(), Value::String("s".to_string()));
    assert_eq!(JobError::Disconnected.is_reportable(), false);
    assert_eq!(JobError::Disconnected.kind(), ErrorKind::StreamDisconnected);
    assert_eq!(JobError::UnknownName.is_reportable(), true);
}

fn entry_rows(rows: &Vec<Row>) -> Vec<(String, String)> {
    rows.iter()
        .map(|row| {
            assert_eq!(row.cells.len(), 2);
            match (&row.cells[0], &row.cells[1]) {
                (Value::String(n), Value::String(t)) => (n.clone(), t.clone()),
                other => panic!("not two strings: {:?}", other),
            }
        })
        .collect()
}

fn pair(name: &str, kind_text: &str) -> (String, String) {
    (name.to_string(), kind_text.to_string())
}

#[test]
fn env_lists_names_sorted() {
    let mut scopes = Scopes::new();
    let parent = scopes.create(None);
    let other = scopes.create(None);
    let me = scopes.create(Some(parent));
    scopes.declare(parent, "zeta", Value::Bool(true)).unwrap();
    scopes.declare(parent, "x", Value::String("hidden".to_string())).unwrap();
    scopes.declare(other, "mid", Value::Scope(parent)).unwrap();
    scopes.declare(other, "x", Value::Bool(false)).unwrap();
    scopes.declare(me, "x", Value::Integer(1)).unwrap();
    scopes.declare(me, "alpha", Value::Empty).unwrap();
    scopes.declare(me, "al", Value::Float(0)).unwrap();
    scopes.use_scope(me, other).unwrap();
    scopes.use_scope(other, me).unwrap();
    let rows = var::env(&scopes, &context(me, vec![]));
    assert_eq!(
        entry_rows(&rows),
        vec![
            pair("al", "float"),
            pair("alpha", "empty"),
            pair("mid", "scope"),
            pair("x", "integer"),
            pair("zeta", "bool"),
        ]
    );
    assert_eq!(var::env(&scopes, &context(77, vec![])).len(), 0);
    assert_eq!(
        var::env_type(),
        vec![ColumnType::new("name", ValueType::String), ColumnType::new("type", ValueType::String)]
    );
}

#[test]
fn dump_goes_in_search_order() {
    let mut scopes = Scopes::new();
    let parent = scopes.create(None);
    let other = scopes.create(None);
    let me = scopes.create(Some(parent));
    scopes.declare(parent, "p", Value::Bool(true)).unwrap();
    scopes.declare(parent, "x", Value::Bool(true)).unwrap();
    scopes.declare(other, "o", Value::Integer(1)).unwrap();
    scopes.declare(me, "x", Value::Integer(1)).unwrap();
    scopes.use_scope(me, other).unwrap();
    let names: Vec<(String, ValueType)> =
        scopes.dump(me).into_iter().map(|e| (e.name, e.value_type)).collect();
    assert_eq!(
        names,
        vec![
            ("x".to_string(), ValueType::Integer),
            ("o".to_string(), ValueType::Integer),
            ("p".to_string(), ValueType::Bool),
        ]
    );
}

#[test]
fn sort_orders_as_strings_compare() {
    let names = ["b", "", "ab", "a", "B", "abc", "é", "z", "aa"];
    let entries: Vec<Entry> = names
        .iter()
        .map(|n| Entry { name: n.to_string(), value_type: ValueType::Empty })
        .collect();
    let sorted: Vec<String> = var::sort_by_name(&entries).into_iter().map(|e| e.name).collect();
    let mut expected: Vec<String> = names.iter().map(|n| n.to_string()).collect();
    expected.sort();
    assert_eq!(sorted, expected);
}

#[test]
fn registered_commands_say_what_they_are() {
    let quiet = [Builtin::VarLet, Builtin::VarSet, Builtin::VarUnset, Builtin::VarUse];
    for command in quiet {
        assert_eq!(command.can_block(), false);
        assert_eq!(command.declared_output(), OutputType::Known(ValueType::Empty));
        assert_eq!(command.long_help().is_some(), command == Builtin::VarUse);
    }
    assert_eq!(Builtin::VarEnv.can_block(), false);
    assert_eq!(Builtin::VarEnv.declared_output(), OutputType::Unknown);
    assert_eq!(Builtin::SplitFrom.can_block(), true);
    assert_eq!(Builtin::SplitFrom.declared_output(), OutputType::Unknown);
    assert_eq!(Builtin::Head.can_block(), false);
    assert_eq!(Builtin::VarLet.usage(), Some("name := value".to_string()));
    assert_eq!(Builtin::VarSet.usage(), Some("name = value".to_string()));
    assert_eq!(Builtin::VarUnset.usage(), Some("scope name:string".to_string()));
    assert_eq!(Builtin::VarEnv.usage(), Some("env".to_string()));
    assert_eq!(Builtin::VarUse.usage(), Some("use scope:scope".to_string()));
    assert_eq!(Builtin::Head.usage(), None);
    assert_eq!(Builtin::VarLet.short_help(), Some("Declare a new variable".to_string()));
    assert_eq!(Builtin::VarUnset.short_help(), Some("Removes a variable from the namespace".to_string()));
    assert_eq!(
        Builtin::SplitFrom.short_help(),
        Some("Read specified files (or input) as a table, split on the specified separator".to_string())
    );
    assert_eq!(
        Builtin::VarEnv.long_help(),
        Some("    The columns of the table are the name, and the type of the value.".to_string())
    );
    assert_eq!(Builtin::VarUse.long_help(), Some("    Example:\n\n    use math\n    sqrt 1.0".to_string()));
}

#[test]
fn let_takes_the_last_of_a_repeated_name() {
    let mut scopes = Scopes::new();
    let s = scopes.create(None);
    scopes.declare(s, "a", Value::Integer(0)).unwrap();
    scopes.declare(s, "kept", Value::Bool(true)).unwrap();
    let arguments = vec![
        Argument::named("a", Value::Integer(1)),
        Argument::named("b", Value::Integer(2)),
        Argument::named("a", Value::Integer(3)),
    ];
    assert_eq!(let_(&mut scopes, &context(s, arguments)), Ok(Value::Empty));
    assert_eq!(scopes.lookup(s, "a"), Ok(&Value::Integer(3)));
    assert_eq!(scopes.lookup(s, "b"), Ok(&Value::Integer(2)));
    assert_eq!(scopes.lookup(s, "kept"), Ok(&Value::Bool(true)));
}

#[test]
fn set_declares_nothing_at_any_place() {
    let mut scopes = Scopes::new();
    let parent = scopes.create(None);
    let s = scopes.create(Some(parent));
    scopes.declare(parent, "a", Value::Integer(0)).unwrap();
    let arguments = vec![
        Argument::named("a", Value::Integer(1)),
        Argument::named("missing", Value::Integer(2)),
        Argument::named("a", Value::Integer(3)),
    ];
    assert_eq!(var::set(&mut scopes, &context(s, arguments)), Err(JobError::UnknownName));
    assert_eq!(scopes.lookup(s, "missing"), Err(JobError::UnknownName));
    assert_eq!(scopes.lookup(s, "a"), Ok(&Value::Integer(1)));
}

#[test]
fn use_comes_before_the_parent_and_copies_nothing() {
    let mut scopes = Scopes::new();
    let parent = scopes.create(None);
    let first = scopes.create(None);
    let second = scopes.create(None);
    let s = scopes.create(Some(parent));
    scopes.declare(parent, "n", Value::Integer(0)).unwrap();
    scopes.declare(second, "n", Value::Integer(2)).unwrap();
    scopes.declare(s, "own", Value::Integer(9)).unwrap();
    let arguments = vec![Argument::unnamed(Value::Scope(first)), Argument::unnamed(Value::Scope(second))];
    assert_eq!(use_(&mut scopes, &context(s, arguments)), Ok(Value::Empty));
    assert_eq!(scopes.lookup(s, "n"), Ok(&Value::Integer(2)));
    assert_eq!(scopes.lookup(s, "own"), Ok(&Value::Integer(9)));
    assert_eq!(scopes.lookup(second, "own"), Err(JobError::UnknownName));
    scopes.declare(second, "m", Value::Integer(5)).unwrap();
    assert_eq!(scopes.lookup(s, "m"), Ok(&Value::Integer(5)));
    assert_eq!(var::set(&mut scopes, &context(second, vec![Argument::named("m", Value::Integer(6))])), Ok(Value::Empty));
    assert_eq!(scopes.lookup(s, "m"), Ok(&Value::Integer(6)));
    scopes.declare(first, "n", Value::Integer(1)).unwrap();
    assert_eq!(scopes.lookup(s, "n"), Ok(&Value::Integer(1)));
}
